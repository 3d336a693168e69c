use nv_core::autocomplete::{display_title, fuzzy_score, link_candidates, move_selection, preview, tags_label};
use nv_core::note::Note;

/// The subsequence score as plain code, for comparison.
fn reference_score(query: &str, target: &str) -> Option<i32> {
    if query.is_empty() {
        return Some(0);
    }
    let query_lower = query.to_lowercase();
    let target_lower = target.to_lowercase();
    let mut score: i32 = 0;
    let mut last_match: Option<usize> = None;
    let mut q_chars = query_lower.chars().peekable();
    for (ti, tc) in target_lower.chars().enumerate() {
        if let Some(&qc) = q_chars.peek() {
            if tc == qc {
                match last_match {
                    Some(last) => score += (ti - last - 1) as i32,
                    None => score += ti as i32,
                }
                last_match = Some(ti);
                q_chars.next();
            }
        } else {
            break;
        }
    }
    if q_chars.peek().is_some() {
        None
    } else {
        Some(score)
    }
}

#[test]
fn fuzzy_score_matches_the_rule() {
    let pairs = [
        ("", "anything"),
        ("abc", "axbycz"),
        ("abc", "abc"),
        ("abc", "cba"),
        ("ABC", "xxaBc"),
        ("nota", "(nota vacía)"),
        ("ñ", "AÑO"),
        ("x", ""),
        ("aa", "a"),
        ("İ", "i̇x"),
    ];
    for (q, t) in pairs {
        assert_eq!(fuzzy_score(q, t), reference_score(q, t), "score of {q:?} in {t:?}");
    }
    assert_eq!(fuzzy_score("abc", "axbycz"), Some(2));
    assert_eq!(fuzzy_score("abc", "zzabc"), Some(2));
    assert_eq!(fuzzy_score("abc", "cba"), None);
}

#[test]
fn display_title_is_first_text_line() {
    assert_eq!(display_title("\n  \n  Hello world  \nsecond"), "Hello world");
    assert_eq!(display_title(""), "(nota vacía)");
    assert_eq!(display_title(" \n\t\n"), "(nota vacía)");
    assert_eq!(display_title("line\r\nnext"), "line");
}

#[test]
fn preview_is_first_four_lines() {
    let content = "a\nb\r\nc\n\nd\ne";
    let expected: String = content.lines().take(4).collect::<Vec<_>>().join("\n");
    assert_eq!(preview(content), expected);
    assert_eq!(preview("one"), "one");
    assert_eq!(preview("one\n"), "one");
    assert_eq!(preview(""), "");
    for c in ["x\r", "x\r\n", "\n\n\n\n\n", "a\nb", "a\r\nb\r\n"] {
        let expected: String = c.lines().take(4).collect::<Vec<_>>().join("\n");
        assert_eq!(preview(c), expected, "preview of {c:?}");
    }
}

#[test]
fn tags_label_brackets_and_spaces() {
    assert_eq!(tags_label(&vec![]), "");
    assert_eq!(tags_label(&vec!["a".to_string()]), "[a]");
    assert_eq!(tags_label(&vec!["a".to_string(), "bc".to_string()]), "[a bc]");
}

fn note(id: &str, content: &str, tags: &[&str]) -> Note {
    Note {
        id: id.to_string(),
        title: id.to_string(),
        filepath: format!("/n/{id}.md"),
        content: content.to_string(),
        modified_at: 0,
        created_at: 0,
        tags: tags.iter().map(|t| t.to_string()).collect(),
    }
}

#[test]
fn candidates_are_ranked_and_capped() {
    let notes = vec![
        note("1", "zeta\nbody", &["x"]),
        note("2", "alpha", &[]),
        note("3", "", &[]),
        note("4", "beta", &["p", "q"]),
        note("5", "zulu", &[]),
    ];
    let got = link_candidates(&notes, "z");
    let ids: Vec<&str> = got.iter().map(|c| c.id.as_str()).collect();
    // "zeta" and "zulu" score 0 (ties ordered by display title), "(nota vacía)" has no z.
    assert_eq!(ids, vec!["1", "5"]);
    assert_eq!(got[0].display_title, "zeta");
    assert_eq!(got[0].tags_label, "[x]");
    assert_eq!(got[0].score, 0);
    let all = link_candidates(&notes, "");
    let shown: Vec<&str> = all.iter().map(|c| c.display_title.as_str()).collect();
    assert_eq!(shown, vec!["(nota vacía)", "alpha", "beta", "zeta", "zulu"]);
    let a = link_candidates(&notes, "a");
    let shown: Vec<(&str, i32)> = a.iter().map(|c| (c.display_title.as_str(), c.score)).collect();
    assert_eq!(shown, vec![("alpha", 0), ("beta", 3), ("zeta", 3), ("(nota vacía)", 4)]);
    let many: Vec<Note> = (0..12).map(|i| note(&format!("n{i}"), &format!("item {i:02}"), &[])).collect();
    let got = link_candidates(&many, "item");
    assert_eq!(got.len(), 8);
    assert_eq!(got[0].display_title, "item 00");
    assert_eq!(got[7].display_title, "item 07");
}

#[test]
fn selection_moves_within_the_list() {
    assert_eq!(move_selection(0, 3, true), 1);
    assert_eq!(move_selection(2, 3, true), 2);
    assert_eq!(move_selection(5, 3, true), 2);
    assert_eq!(move_selection(0, 0, true), 0);
    assert_eq!(move_selection(2, 3, false), 1);
    assert_eq!(move_selection(0, 3, false), 0);
}

#[test]
fn fuzzy_score_ignores_ascii_case() {
    assert_eq!(fuzzy_score("ABC", "xaxbxc"), fuzzy_score("abc", "XAXBXC"));
    assert_eq!(fuzzy_score("ABC", "xaxbxc"), Some(3));
    assert_eq!(fuzzy_score("Zq", "ABC"), None);
}
