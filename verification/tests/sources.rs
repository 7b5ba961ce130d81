use comms::sources::{
    scan_failure, select_sources, tally_source, attribute, bounded_limit, fetch, normalized_since, parse_arxiv_entries,
    parse_github_trending, request, source_url, xml_field, CommsError, FeedSourceConfig,
};

fn chars(s: &str) -> Vec<char> {
    s.chars().collect()
}

fn source(adapter: &str) -> FeedSourceConfig {
    FeedSourceConfig {
        id: "src".into(),
        adapter: adapter.into(),
        enabled: true,
        language: None,
        since: None,
        query: None,
        limit: 10,
    }
}

#[test]
fn a_collector_yields_urls_and_provenance_but_no_content() {
    let html = r#"
      <article class="Box-row">
        <h2><a href="/owner/first">owner / first</a></h2>
        <p class="col-9">A useful repository</p>
        <span>123 stars today</span>
      </article>
    "#;
    let found = parse_github_trending(html, 10, "daily");
    assert_eq!(found.len(), 1);
    assert_eq!(found[0].url, "https://github.com/owner/first");
    assert_eq!(found[0].label.as_deref(), Some("GitHub Trending (daily)"));

    let carried = format!("{:?}", found[0]);
    assert!(
        !carried.contains("123 stars today") && !carried.contains("A useful repository"),
        "collector leaked card text: {carried}"
    );
}

#[test]
fn parses_bounded_github_trending_cards() {
    let html = r#"
      <article class="Box-row">
        <h2><a href="/owner/first">owner / first</a></h2>
        <p class="col-9">A useful repository</p>
        <span>123 stars today</span>
      </article>
      <article class="Box-row">
        <h2><a href="/other/second">other / second</a></h2>
        <p>Second repository</p>
      </article>
    "#;
    let items = parse_github_trending(html, 1, "daily");
    assert_eq!(items.len(), 1, "the per-run bound still applies");
    assert_eq!(items[0].url, "https://github.com/owner/first");
}

#[test]
fn parses_arxiv_atom_entries() {
    let xml = r#"
      <feed>
        <entry>
          <id>http://arxiv.org/abs/2607.12345v1</id>
          <title> An explainable ranking system </title>
          <summary> The abstract. </summary>
          <author><name>Ada Example</name></author>
          <author><name>Lin Example</name></author>
        </entry>
      </feed>
    "#;
    let items = parse_arxiv_entries(xml, 10);
    assert_eq!(items.len(), 1);
    assert_eq!(items[0].url, "https://arxiv.org/abs/2607.12345v1");
    assert_eq!(items[0].label.as_deref(), Some("arXiv query"));
}

#[test]
fn cards_without_an_owner_repo_link_and_unclosed_cards_are_skipped() {
    let html = r#"
      <article><h2><a href="/only-owner">x</a></h2></article>
      <article><h2><a href="/a/b/c">x</a></h2></article>
      <article><h2>no link</h2></article>
      <article><h2><a href="/ok/repo/">x</a></h2></article>
      <article><h2><a href="/never/closed">x</a></h2>
    "#;
    let items = parse_github_trending(html, 30, "weekly");
    assert_eq!(items.len(), 1);
    assert_eq!(items[0].url, "https://github.com/ok/repo");
    assert_eq!(items[0].label.as_deref(), Some("GitHub Trending (weekly)"));
}

#[test]
fn arxiv_ids_from_the_export_host_are_normalized_and_others_dropped() {
    let xml = "<entry><id>http://export.arxiv.org/abs/1\n 2</id></entry>\
               <entry><id>https://example.com/abs/3</id></entry>\
               <entry><id>https://arxiv.org/abs/4</id></entry>\
               <entry><id>https://arxiv.org/abs/5</id></entry>";
    let items = parse_arxiv_entries(xml, 2);
    let urls: Vec<&str> = items.iter().map(|d| d.url.as_str()).collect();
    assert_eq!(urls, vec!["https://arxiv.org/abs/1 2", "https://arxiv.org/abs/4"]);
}

#[test]
fn attributes_and_fields_decode_entities_once() {
    assert_eq!(
        attribute(&chars(r#"<a href=" /x&amp;lt;y ">"#), "href"),
        Some(chars("/x&lt;y"))
    );
    assert_eq!(attribute(&chars("<a>"), "href"), None);
    assert_eq!(
        xml_field(&chars("<t>  a &quot;b&quot;\n\tc </t>"), "t"),
        Some(chars("a \"b\" c"))
    );
    assert_eq!(xml_field(&chars("<t>open"), "t"), None);
}

#[test]
fn limits_and_since_values_are_bounded() {
    assert_eq!(bounded_limit(0), 1);
    assert_eq!(bounded_limit(7), 7);
    assert_eq!(bounded_limit(500), 30);
    assert_eq!(normalized_since(Some("monthly")), "monthly");
    assert_eq!(normalized_since(Some("hourly")), "daily");
    assert_eq!(normalized_since(None), "daily");
}

#[test]
fn source_urls_name_the_page_each_adapter_reads() {
    let mut trending = source("github-trending");
    trending.language = Some(" rust ".into());
    trending.since = Some("weekly".into());
    assert_eq!(source_url(&trending), "https://github.com/trending/rust?since=weekly");
    trending.language = Some("  ".into());
    assert_eq!(source_url(&trending), "https://github.com/trending?since=weekly");
    assert_eq!(source_url(&source("arxiv")), "https://export.arxiv.org/api/query");
    assert_eq!(source_url(&source("rss")), "");
}

#[test]
fn an_arxiv_source_needs_a_query_and_an_unknown_adapter_is_refused() {
    match request(&source("arxiv")) {
        Err(CommsError::Config(message)) => assert_eq!(message, "arXiv source 'src' needs query"),
        _ => panic!("an arXiv source without a query must be refused"),
    }
    let mut arxiv = source("arxiv");
    arxiv.query = Some("  cat:cs.IR ".into());
    arxiv.limit = 99;
    let req = request(&arxiv).ok().unwrap();
    assert_eq!(req.url, "https://export.arxiv.org/api/query");
    let pairs: Vec<(&str, &str)> = req.query.iter().map(|(k, v)| (k.as_str(), v.as_str())).collect();
    assert_eq!(
        pairs,
        vec![
            ("search_query", "cat:cs.IR"),
            ("start", "0"),
            ("max_results", "30"),
            ("sortBy", "submittedDate"),
            ("sortOrder", "descending"),
        ]
    );
    match fetch(&source("rss"), "") {
        Err(CommsError::Config(message)) => assert_eq!(message, "unknown Feed source adapter 'rss'"),
        _ => panic!("an unknown adapter must be refused"),
    }
    let found = fetch(&source("arxiv"), "<entry><id>https://arxiv.org/abs/9</id></entry>").ok().unwrap();
    assert_eq!(found.len(), 1);
}

#[test]
fn a_scan_takes_enabled_sources_and_reports_each() {
    let mut a = source("arxiv");
    a.id = "a".into();
    let mut b = source("github-trending");
    b.id = "b".into();
    b.enabled = false;
    let mut c = source("github-trending");
    c.id = "c".into();
    let all = vec![a, b, c];
    assert_eq!(select_sources(&all, None), Ok(vec![0, 2]));
    assert_eq!(select_sources(&all, Some("c")), Ok(vec![2]));
    assert_eq!(
        select_sources(&all, Some("b")),
        Err("no matching enabled Feed source".to_string())
    );
    let t = tally_source(5, 1, 3);
    assert_eq!((t.discovered, t.fetched, t.new_count, t.known_count), (5, 4, 3, 1));
    assert_eq!(scan_failure(1, 2), None);
    assert_eq!(
        scan_failure(2, 2),
        Some("every selected Feed source failed (2 of 2) \u{2014} see the comms log for each".to_string())
    );
}
