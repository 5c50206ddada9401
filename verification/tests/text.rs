use cantus::config::SearchProvider;
use cantus::search::{search_query, search_url};
use cantus::lyrics::{clean_caption, normalize, section_label};
use cantus::platform::cpu_counters;
use cantus::spotify::image_url;

#[test]
fn cleans_captions() {
    assert_eq!(clean_caption("<i>Hello</i>   world"), "Hello world");
    assert_eq!(clean_caption(" rock &amp; roll \n &quot;live&quot; "), "rock & roll \"live\"");
    assert_eq!(clean_caption("&lt;b&gt; &#39;quoted&#39;"), "<b> 'quoted'");
    assert_eq!(clean_caption("&amp;lt;"), "<");
    assert_eq!(clean_caption("a > b <c"), "a > b");
    assert_eq!(clean_caption(""), "");
}

#[test]
fn labels_sections() {
    assert_eq!(section_label("preChorus"), "Pre Chorus");
    assert_eq!(section_label("verse"), "Verse");
    assert_eq!(section_label("Intro"), "Intro");
    assert_eq!(section_label("postChorusA"), "Post Chorus A");
    assert_eq!(section_label(""), "");
}

#[test]
fn normalizes_match_keys() {
    assert_eq!(normalize("Hello, World!"), "helloworld");
    assert_eq!(normalize("Beyoncé — Déjà Vu (feat. Jay-Z)"), "beyoncédéjàvufeatjayz");
    assert_eq!(normalize("  "), "");
}

#[test]
fn resolves_image_names() {
    assert_eq!(image_url("spotify:image:ab67616d"), "https://i.scdn.co/image/ab67616d");
    assert_eq!(image_url("https://example.com/a.png"), "https://example.com/a.png");
    assert_eq!(image_url("spotify:image:"), "https://i.scdn.co/image/");
    assert_eq!(image_url("spotify:imag"), "spotify:imag");
}

#[test]
fn reads_cpu_counters() {
    let stat = "cpu  10 20 30 40 50 60 70 80 90 100\ncpu0 1 2 3 4 5 6 7 8\n";
    assert_eq!(cpu_counters(stat), Some((270, 360)));
    assert_eq!(cpu_counters("cpu +1 2 3 4 5 6 7 8"), Some((27, 36)));
    assert_eq!(cpu_counters("cpu0 1 2 3 4 5 6 7 8"), None);
    assert_eq!(cpu_counters("cpu 1 2 3 4 5 6 7"), None);
    assert_eq!(cpu_counters("cpu 1 2 3 4 5 6 7\n8"), None);
    assert_eq!(cpu_counters("cpu 1 2 3 x 5 6 7 8"), None);
    assert_eq!(cpu_counters("cpu 1 2 3 18446744073709551616 5 6 7 8"), None);
    assert_eq!(cpu_counters(""), None);
    assert_eq!(cpu_counters("\ncpu 1 2 3 4 5 6 7 8"), None);
}

fn provider(alias: &str) -> SearchProvider {
    SearchProvider {
        name: alias.into(),
        url: format!("https://example.com/{alias}?q={{searchTerms}}"),
        icon: String::new(),
        alias: alias.into(),
    }
}

#[test]
fn builds_search_addresses() {
    assert_eq!(search_url("https://duckduckgo.com/?q={searchTerms}", "a b&c"), "https://duckduckgo.com/?q=a+b%26c");
    assert_eq!(search_url("x={searchTerms}&y={searchTerms}", "é*"), "x=%C3%A9*&y=%C3%A9*");
    assert_eq!(search_url("no placeholder", "terms"), "no placeholder");
}

#[test]
fn selects_providers_by_alias() {
    let providers = [provider("!ddg"), provider("!gh"), provider("")];
    assert_eq!(search_query("  !gh  rust lang ", &providers), (Some(1), "rust lang".to_string()));
    assert_eq!(search_query("!ddg", &providers), (Some(0), String::new()));
    assert_eq!(search_query("!ghost", &providers), (None, "!ghost".to_string()));
    assert_eq!(search_query(" firefox ", &providers), (None, "firefox".to_string()));
}
