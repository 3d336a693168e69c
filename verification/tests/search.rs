use fuzzy_matcher::skim::SkimMatcherV2;
use fuzzy_matcher::FuzzyMatcher;
use nv_core::note::Note;
use nv_core::search::{combine, search_notes};

fn note(id: &str, content: &str, tags: &[&str], modified: i64) -> Note {
    Note {
        id: id.to_string(),
        title: id.to_string(),
        filepath: format!("/n/{id}.md"),
        content: content.to_string(),
        modified_at: modified,
        created_at: modified,
        tags: tags.iter().map(|t| t.to_string()).collect(),
    }
}

/// The ranking rule as plain code, for comparison.
fn reference(notes: &[Note], q_raw: &str) -> Vec<String> {
    let q = q_raw.trim().to_lowercase();
    if q.is_empty() {
        return notes.iter().map(|n| n.id.clone()).collect();
    }
    let matcher = SkimMatcherV2::default();
    let mut scored: Vec<(String, i64)> = Vec::new();
    for n in notes {
        let mut best: Option<i64> = None;
        if let Some(s) = matcher.fuzzy_match(&n.title, &q) {
            best = Some(s * 3);
        } else if n.title.to_lowercase().contains(&q) {
            best = Some(500);
        }
        for t in &n.tags {
            if t.to_lowercase().contains(&q) {
                best = Some(best.map_or(400, |p| p.max(400)));
            }
        }
        if let Some((s, idx)) = matcher.fuzzy_indices(&n.content, &q) {
            let span = (idx.last().unwrap() - idx.first().unwrap() + 1) as i64;
            if span <= q.len() as i64 * 3 {
                best = Some(best.map_or(s, |p| p.max(s)));
            } else if n.content.to_lowercase().contains(&q) {
                best = Some(best.map_or(200, |p| p.max(200)));
            }
        } else if n.content.to_lowercase().contains(&q) {
            best = Some(best.map_or(200, |p| p.max(200)));
        }
        if let Some(s) = best {
            scored.push((n.id.clone(), s));
        }
    }
    scored.sort_by(|a, b| b.1.cmp(&a.1));
    scored.into_iter().map(|(id, _)| id).collect()
}

fn sample_notes() -> Vec<Note> {
    vec![
        note("shopping", "buy milk eggs", &["list"], 5),
        note("ideas", "unrelated text", &[], 4),
        note("proyecto", "Este es mi proyecto de notas en nv-gtk", &["work"], 3),
        note("20240919-1530", "hay una nota antigua que menciona ojo y yo", &[], 2),
        note("sumas", "quiero sumar dos números en el panel sumador", &["Math"], 1),
        note("escape", "escape cancela el overlay", &["keys", "ESC"], 0),
        note("vacía", "", &[], 7),
        note("Ñandú", "ÑANDÚ grande", &["aves"], 6),
    ]
}

#[test]
fn search_matches_the_ranking_rule() {
    let notes = sample_notes();
    for q in [
        "", "   ", "milk", "MILK", " milk ", "hoy", "nvgtk", "sumar", "esc", "proyecto", "math", "ke",
        "zzz", "a", "ñandú", "ÑAN", "notas", "20240919", "yo", "de",
    ] {
        assert_eq!(search_notes(&notes, q), reference(&notes, q), "query {q:?}");
    }
}

#[test]
fn search_returns_ranked_ids() {
    let notes = vec![note("shopping", "buy milk eggs", &[], 2), note("ideas", "unrelated text", &[], 1)];
    let hits = search_notes(&notes, "milk");
    assert_eq!(hits, vec!["shopping"]);
    assert_eq!(search_notes(&notes, "").len(), 2);
    assert_eq!(search_notes(&notes, "  "), vec!["shopping", "ideas"]);
}

#[test]
fn scattered_content_matches_are_left_out() {
    // "hoy" matches h…o…y far apart: not dense, and the text is not there.
    let notes = vec![note("n", "hay una nota antigua que menciona ojo y yo", &[], 0)];
    assert!(search_notes(&notes, "hoy").is_empty());
    // The same letters close together match.
    let notes = vec![note("n", "hoy es hoy", &[], 0)];
    assert_eq!(search_notes(&notes, "hoy"), vec!["n"]);
}

#[test]
fn combine_scores() {
    assert_eq!(combine(Some(10), false, false, None, false, &['a']), Some(30));
    assert_eq!(combine(None, true, false, None, false, &['a']), Some(500));
    assert_eq!(combine(None, true, true, None, false, &['a']), Some(500));
    assert_eq!(combine(Some(100), false, true, None, false, &['a']), Some(400));
    assert_eq!(combine(None, false, false, Some((77, vec![3, 5])), false, &['a']), Some(77));
    // Span 3 for a one-byte query is dense; span 4 is not.
    assert_eq!(combine(None, false, false, Some((77, vec![3, 6])), false, &['a']), None);
    assert_eq!(combine(None, false, false, Some((77, vec![3, 6])), true, &['a']), Some(200));
    assert_eq!(combine(None, false, false, Some((77, vec![3, 5])), true, &['a']), Some(77));
    assert_eq!(combine(None, false, false, None, true, &['a']), Some(200));
    assert_eq!(combine(None, false, false, None, false, &['a']), None);
    // A two-byte character widens the allowed span.
    assert_eq!(combine(None, false, false, Some((5, vec![0, 5])), false, &['é']), Some(5));
    assert_eq!(combine(Some(-7), false, false, None, false, &['a']), Some(-21));
}

#[test]
fn equal_scores_keep_list_order() {
    let notes = vec![
        note("b", "", &["tag"], 0),
        note("a", "", &["tag"], 0),
        note("c", "", &["tagged"], 0),
    ];
    assert_eq!(search_notes(&notes, "tag"), vec!["b", "a", "c"]);
}

#[test]
fn blank_query_lists_every_note_in_order() {
    let notes = sample_notes();
    let all: Vec<String> = notes.iter().map(|n| n.id.clone()).collect();
    for q in ["", "   ", "\t\n "] {
        assert_eq!(search_notes(&notes, q), all);
    }
}
