use nv_core::wiki::{extract_wiki_links, pending_link_query, target_at_cursor, wiki_link_char_ranges};

fn reference(text: &str) -> Vec<(String, usize, usize)> {
    let re = regex::Regex::new(r"\[\[([^\]]+)\]\]").unwrap();
    re.captures_iter(text)
        .map(|cap| {
            let m = cap.get(0).unwrap();
            (cap[1].trim().to_string(), m.start(), m.end())
        })
        .collect()
}

const SAMPLES: [&str; 12] = [
    "see [[Note A]] and [[ b ]]",
    "[[]] [[x]]",
    "[[[a]]",
    "[[a]b]] [[c]]",
    "no links",
    "[[unclosed",
    "ñ[[año]]é[[día]]",
    "[[a\nb]]",
    "]] [[ ]] [[x]]]",
    "[[[[x]]]]",
    "[[x]",
    "",
];

#[test]
fn links_match_the_pattern() {
    for text in SAMPLES {
        let got: Vec<(String, usize, usize)> = extract_wiki_links(text)
            .into_iter()
            .map(|l| (l.target, l.start, l.end))
            .collect();
        assert_eq!(got, reference(text), "links of {text:?}");
    }
}

#[test]
fn link_ranges_in_characters() {
    for text in SAMPLES {
        let chars: Vec<(usize, usize)> = wiki_link_char_ranges(text);
        let bytes = extract_wiki_links(text);
        assert_eq!(chars.len(), bytes.len());
        for (c, b) in chars.iter().zip(bytes.iter()) {
            assert_eq!(c.0, text[..b.start].chars().count());
            assert_eq!(c.1, text[..b.end].chars().count());
        }
    }
    assert_eq!(wiki_link_char_ranges("ñ[[año]]"), vec![(1, 8)]);
}

#[test]
fn target_under_the_cursor() {
    let text = "ab [[first]] cd [[ second ]]";
    assert_eq!(target_at_cursor(text, 0), None);
    assert_eq!(target_at_cursor(text, 3), Some("first".to_string()));
    assert_eq!(target_at_cursor(text, 12), Some("first".to_string()));
    assert_eq!(target_at_cursor(text, 13), None);
    assert_eq!(target_at_cursor(text, 20), Some("second".to_string()));
    assert_eq!(target_at_cursor(text, 28), Some("second".to_string()));
    assert_eq!(target_at_cursor(text, 29), None);
}

#[test]
fn pending_query_before_the_cursor() {
    assert_eq!(pending_link_query("see [[no"), Some((6, "no".to_string())));
    assert_eq!(pending_link_query("see [["), Some((6, String::new())));
    assert_eq!(pending_link_query("see [[done]] more"), None);
    assert_eq!(pending_link_query("[[a]] and [[b"), Some((12, "b".to_string())));
    assert_eq!(pending_link_query("[[open\nnext line"), None);
    assert_eq!(pending_link_query("first\n[[año"), Some((8, "año".to_string())));
    assert_eq!(pending_link_query("ñ[[x"), Some((3, "x".to_string())));
    assert_eq!(pending_link_query("[[[q"), Some((3, "q".to_string())));
    assert_eq!(pending_link_query("nothing"), None);
    assert_eq!(pending_link_query(""), None);
    assert_eq!(pending_link_query("[[a]"), Some((2, "a]".to_string())));
}
