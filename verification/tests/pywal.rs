use nv_core::pywal::{
    extract_hex, normalize_hex, read_colors_file, read_colors_json, read_wal, rgb, wal_cache_dir, wal_palette, WalColors,
};

#[test]
fn extractor_does_not_confuse_color1_with_color10() {
    // The valid fixture carries both color1 and color10..15; an extractor
    // matching `"color1` without its closing quote would read color10's
    // value here instead.
    assert_eq!(extract_hex("{\"color1\": \"#aaaaaa\", \"color10\": \"#bbbbbb\"}", "color1"), Some("#aaaaaa".to_string()));
    assert_eq!(extract_hex("{\"color1\": \"#aaaaaa\", \"color10\": \"#bbbbbb\"}", "color10"), Some("#bbbbbb".to_string()));
}

fn full_json(background: &str, foreground: &str) -> String {
    let mut colors = String::new();
    for i in 0..16 {
        if i > 0 {
            colors.push_str(",\n");
        }
        let value = match i {
            1 => "#F7768E".to_string(),
            4 => "#7aa2f7".to_string(),
            9 => "#f7768e".to_string(),
            _ => format!("#{:02x}{:02x}{:02x}", i * 10, i * 11, i * 12),
        };
        colors.push_str(&format!("        \"color{i}\": \"{value}\""));
    }
    format!(
        "{{\n    \"wallpaper\": \"/home/u/pic.png\",\n    \"alpha\": \"100\",\n    \"special\": {{\n        \"background\": \"{background}\",\n        \"foreground\": \"{foreground}\",\n        \"cursor\": \"#c0caf5\"\n    }},\n    \"colors\": {{\n{colors}\n    }}\n}}\n"
    )
}

#[test]
fn valid_colors_json_reads_background_foreground_and_colors() {
    let text = full_json("#1a1b26", "#C0CAF5");
    let wal = read_colors_json(&text).expect("complete colors.json parses");
    assert_eq!(wal.background, "#1a1b26");
    // The foreground is declared uppercase; output is normalized.
    assert_eq!(wal.foreground, "#c0caf5");
    assert_eq!(wal.colors.len(), 16);
    assert_eq!(wal.colors[1], "#f7768e");
    assert_eq!(wal.colors[9], "#f7768e");
    assert_eq!(wal.colors[4], "#7aa2f7");
    assert_eq!(wal.colors[15], "#96a5b4");
}

#[test]
fn partial_or_malformed_colors_json_is_rejected() {
    let text = full_json("#1a1b26", "#c0caf5").replace("\"color15\"", "\"colour15\"");
    assert!(read_colors_json(&text).is_none());
    let text = full_json("#1a1b26", "c0caf5");
    assert!(read_colors_json(&text).is_none());
    assert!(read_colors_json("not json at all").is_none());
    assert!(read_colors_json("").is_none());
}

#[test]
fn extract_hex_edge_cases() {
    // Spaces around the colon are skipped; the value is normalized.
    assert_eq!(extract_hex("\"background\"  :   \"#ABCDEF\"", "background"), Some("#abcdef".to_string()));
    // A first occurrence without a value does not hide a later one.
    assert_eq!(
        extract_hex("\"background\" \"x\", \"background\": \"#000000\"", "background"),
        Some("#000000".to_string())
    );
    // Not #rrggbb.
    assert_eq!(extract_hex("\"background\": \"#abcde\"", "background"), None);
    assert_eq!(extract_hex("\"background\": \"#abcdeg\"", "background"), None);
    assert_eq!(extract_hex("\"background\": #abcdef", "background"), None);
    assert_eq!(extract_hex("\"background\": \"#abcdef", "background"), None);
    assert_eq!(extract_hex("{}", "background"), None);
}

#[test]
fn normalize_hex_accepts_either_case_only() {
    assert_eq!(normalize_hex("#AbCdEf"), Some("#abcdef".to_string()));
    assert_eq!(normalize_hex("#123456"), Some("#123456".to_string()));
    assert_eq!(normalize_hex("123456"), None);
    assert_eq!(normalize_hex("#12345"), None);
    assert_eq!(normalize_hex("#1234567"), None);
    assert_eq!(normalize_hex("#12345é"), None);
    assert_eq!(normalize_hex(" #123456"), None);
}

#[test]
fn rgb_reads_channels() {
    assert_eq!(rgb("#1a1b26"), (26, 27, 38));
    assert_eq!(rgb("#C0CAF5"), (192, 202, 245));
    assert_eq!(rgb("#000000"), (0, 0, 0));
    assert_eq!(rgb("#ffffff"), (255, 255, 255));
}

fn colors_file(lines: &[&str], tail: &str) -> String {
    let mut text = lines.join("\n");
    text.push_str(tail);
    text
}

#[test]
fn colors_file_fallback_uses_color0_and_color7() {
    let mut lines = vec!["#aaaaaa"; 16];
    lines[0] = "#2E3440";
    lines[7] = "#e5e9f0";
    let text = colors_file(&lines, "\n\n  \n");
    let wal = read_colors_file(&text).expect("16-line file parses");
    assert_eq!(wal.background, "#2e3440");
    assert_eq!(wal.foreground, "#e5e9f0");
    assert_eq!(wal.colors.len(), 16);
    assert_eq!(wal.colors[0], "#2e3440");
    // Lines are trimmed.
    let mut spaced = lines.clone();
    spaced[3] = "  #123456  ";
    assert_eq!(read_colors_file(&colors_file(&spaced, "")).unwrap().colors[3], "#123456");
}

#[test]
fn colors_file_needs_exactly_sixteen_valid_lines() {
    let lines = vec!["#aaaaaa"; 15];
    assert!(read_colors_file(&colors_file(&lines, "\n")).is_none());
    let lines = vec!["#aaaaaa"; 17];
    assert!(read_colors_file(&colors_file(&lines, "\n")).is_none());
    let mut lines = vec!["#aaaaaa"; 16];
    lines[5] = "nope";
    assert!(read_colors_file(&colors_file(&lines, "\n")).is_none());
    // A blank line in the middle counts as a (malformed) line.
    let mut lines = vec!["#aaaaaa"; 16];
    lines[5] = "";
    assert!(read_colors_file(&colors_file(&lines, "")).is_none());
    assert!(read_colors_file("").is_none());
}

#[test]
fn colors_json_is_preferred_and_never_falls_back() {
    let json = full_json("#222222", "#EEEEEE");
    let file = colors_file(&vec!["#abcdef"; 16], "\n");
    let wal = read_wal(Some(Some(&json)), Some(&file)).expect("complete colors.json parses");
    assert_eq!(wal.background, "#222222");
    assert_eq!(wal.foreground, "#eeeeee");
    // A malformed colors.json gives nothing, although a valid colors file exists.
    assert!(read_wal(Some(Some("{ \"background\": \"oops\" }")), Some(&file)).is_none());
    // A colors.json that exists but cannot be read gives nothing either.
    assert!(read_wal(Some(None), Some(&file)).is_none());
    // Without colors.json the colors file is used.
    assert_eq!(read_wal(None, Some(&file)).unwrap().background, "#abcdef");
    // Neither file: nothing.
    assert!(read_wal(None, None).is_none());
}

#[test]
fn wal_palette_places_each_color_in_its_slot() {
    let colors: Vec<String> = (0..16).map(|i| format!("#0000{:02x}", i)).collect();
    let w = WalColors { background: "#101010".to_string(), foreground: "#f0f0f0".to_string(), colors };
    let ramp: Vec<String> = (0..8).map(|i| format!("#1111{:02x}", i)).collect();
    let p = wal_palette(&w, "#0a0a0a".to_string(), "#050505".to_string(), ramp);
    assert_eq!(p.base, "#101010");
    assert_eq!(p.text, "#f0f0f0");
    assert_eq!(p.mantle, "#0a0a0a");
    assert_eq!(p.crust, "#050505");
    assert_eq!(p.surface0, "#111100");
    assert_eq!(p.subtext1, "#111107");
    assert_eq!(p.red, "#000001");
    assert_eq!(p.green, "#000002");
    assert_eq!(p.yellow, "#000003");
    assert_eq!(p.blue, "#000004");
    assert_eq!(p.mauve, "#000005");
    assert_eq!(p.teal, "#000006");
    assert_eq!(p.peach, "#000009");
    assert_eq!(p.lavender, "#00000c");
    assert_eq!(p.pink, "#00000d");
    assert_eq!(p.sky, "#00000e");
}

#[test]
fn malformed_colors_json_returns_none_without_fallback() {
    let file = colors_file(&vec!["#abcdef"; 16], "\n");
    assert!(read_wal(Some(Some("{ \"background\": \"#1a1b26\", ")), Some(&file)).is_none());
}

#[test]
fn missing_directory_returns_none() {
    assert!(read_wal(None, None).is_none());
}

#[test]
fn cache_dir_prefers_xdg_then_home() {
    assert_eq!(wal_cache_dir(Some("/x/cache"), Some("/home/u")).unwrap(), "/x/cache/wal");
    assert_eq!(wal_cache_dir(Some(""), Some("/home/u")).unwrap(), "/home/u/.cache/wal");
    assert_eq!(wal_cache_dir(None, Some("/home/u/")).unwrap(), "/home/u/.cache/wal");
    assert_eq!(wal_cache_dir(None, Some("")), None);
    assert_eq!(wal_cache_dir(Some(""), None), None);
    for (x, h) in [(Some("/c"), None), (None, Some("/h"))] {
        let want = match x {
            Some(c) => std::path::PathBuf::from(c).join("wal"),
            None => std::path::PathBuf::from(h.unwrap()).join(".cache/wal"),
        };
        assert_eq!(wal_cache_dir(x, h).unwrap(), want.to_string_lossy());
    }
}
