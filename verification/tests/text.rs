use unicode_segmentation::UnicodeSegmentation;
use zsm::text::{
    display_width, elision_head_count, elision_tail_start, fit, fit_back, elide_middle, elide_start, remap_indices_after_elide_middle,
    remap_indices_after_elide_start, truncate_bytes, truncate_chars, truncate_columns, wrap_columns,
};

fn char_count(text: &str) -> usize {
    text.chars().count()
}

#[test]
fn wide_and_combining_graphemes_fit_and_highlights_stay_on_original_characters() {
    let samples = [
        "/work/日本語/設定",
        "e\u{301}e\u{301}e\u{301}",
        "★ 👩🏽‍💻 project /🇳🇱/👨‍👩‍👧‍👦/a",
        "x/❤️/1️⃣/end",
    ];
    for sample in samples {
        let source: Vec<_> = sample.chars().collect();
        let clusters: Vec<_> = sample.graphemes(true).collect();
        for width in 0..50 {
            for middle in [false, true] {
                let rendered = if middle {
                    elide_middle(sample, width)
                } else {
                    elide_start(sample, width)
                };
                assert!(
                    display_width(&rendered) <= width,
                    "{rendered:?} exceeds {width}"
                );
                // Every retained piece consists only of whole source clusters.
                assert!(rendered
                    .graphemes(true)
                    .all(|cluster| clusters.contains(&cluster) || cluster == "."));
                let chars: Vec<_> = rendered.chars().collect();
                for (index, expected) in source.iter().enumerate() {
                    let mapped = if middle {
                        remap_indices_after_elide_middle(sample, width, &[index])
                    } else {
                        remap_indices_after_elide_start(sample, width, &[index])
                    };
                    if let Some(&mapped) = mapped.first() {
                        assert_eq!(chars[mapped], *expected);
                    }
                }
            }
            assert!(wrap_columns(sample, width)
                .iter()
                .all(|line| display_width(line) <= width));
        }
    }
    assert_eq!(truncate_columns("日本", 3), "日");
    assert_eq!(truncate_columns("e\u{301}x", 1), "e\u{301}");
    assert_eq!(truncate_columns("👩🏽‍💻x", 2), "👩🏽‍💻");
    assert_eq!(truncate_columns("👩🏽‍💻x", 1), "");
}

#[test]
fn short_text_is_returned_unchanged() {
    assert_eq!(elide_start("/tmp/foo", 20), "/tmp/foo");
    assert_eq!(elide_middle("/tmp/foo", 20), "/tmp/foo");
    assert_eq!(elide_start("exact", 5), "exact");
}

#[test]
fn elide_start_keeps_the_tail_at_the_requested_width() {
    assert_eq!(elide_start("/home/user/projects/zsm", 10), "...cts/zsm");
    // The result is exactly max_chars wide.
    assert_eq!(char_count(&elide_start("/home/user/projects/zsm", 12)), 12);
}

#[test]
fn elide_middle_keeps_head_and_tail_at_the_requested_width() {
    assert_eq!(char_count(&elide_middle("a".repeat(80).as_str(), 20)), 20);
    assert_eq!(elide_middle("0123456789abcdefghij", 16), "0123456789...hij");
}

/// Multi-byte characters near the cut point are never split.
#[test]
fn multi_byte_text_does_not_panic_and_stays_character_aligned() {
    let cyrillic = "/home/пользователь/проекты/сайт";
    let cjk = "/Users/fester/文書/プロジェクト/設定";
    let emoji = "● сессия (/home/u/🚀🚀🚀/app)";

    for width in 0..40 {
        for text in [cyrillic, cjk, emoji] {
            let start = elide_start(text, width);
            let middle = elide_middle(text, width);
            assert!(char_count(&start) <= width, "{text} @ {width}");
            assert!(char_count(&middle) <= width, "{text} @ {width}");
            assert!(truncate_chars(text, width).chars().count() <= width);
        }
    }
}

/// Widths just above the marker width still fit.
#[test]
fn narrow_widths_do_not_underflow() {
    for width in 0..=14 {
        let out = elide_middle("/home/user/projects/zsm", width);
        assert!(
            out.chars().count() <= width,
            "width {width} produced {out:?}"
        );
    }
    assert_eq!(elide_start("abcdefgh", 0), "");
    assert_eq!(elide_start("abcdefgh", 3), "abc");
    assert_eq!(elide_middle("abcdefgh", 3), "abc");
    assert_eq!(elide_start("abcdefgh", 4), "...h");
}

/// Highlight positions must survive elision, otherwise search highlights
/// land on the wrong characters.
#[test]
fn remapped_indices_point_at_the_same_characters() {
    let path = "/home/user/projects/zsm";

    for width in 0..40 {
        let shortened = elide_start(path, width);
        let all: Vec<usize> = (0..path.chars().count()).collect();
        let remapped = remap_indices_after_elide_start(path, width, &all);
        let source: Vec<char> = path.chars().collect();
        let rendered: Vec<char> = shortened.chars().collect();

        // Every surviving index must still address a character in range,
        // and it must be the very same character.
        let kept: Vec<usize> = all
            .iter()
            .copied()
            .filter(|&i| remap_indices_after_elide_start(path, width, &[i]).len() == 1)
            .collect();
        for (slot, original) in remapped.iter().zip(kept.iter()) {
            assert!(*slot < rendered.len(), "width {width}: {slot} out of range");
            assert_eq!(
                rendered[*slot], source[*original],
                "width {width}: index {original} mapped to {slot}"
            );
        }
    }
}

#[test]
fn remapped_middle_indices_point_at_the_same_characters() {
    let row = "\u{25cf} session (/home/user/projects/zsm)";
    let source: Vec<char> = row.chars().collect();

    for width in 0..50 {
        let shortened = elide_middle(row, width);
        let rendered: Vec<char> = shortened.chars().collect();
        for (original, expected) in source.iter().enumerate() {
            let mapped = remap_indices_after_elide_middle(row, width, &[original]);
            if let Some(&slot) = mapped.first() {
                assert!(slot < rendered.len(), "width {width}: {slot} out of range");
                assert_eq!(
                    rendered[slot], *expected,
                    "width {width}: index {original} mapped to {slot}"
                );
            }
        }
    }
}

#[test]
fn byte_truncation_cuts_on_a_character_boundary() {
    assert_eq!(truncate_bytes("abcdef", 3), "abc");
    assert_eq!(truncate_bytes("abc", 10), "abc");

    // Each of these is 2 bytes, so a 3-byte budget fits only one.
    let two_byte = "\u{00e9}\u{00e9}\u{00e9}";
    assert_eq!(truncate_bytes(two_byte, 3), "\u{00e9}");
    assert_eq!(truncate_bytes(two_byte, 4), "\u{00e9}\u{00e9}");

    // A budget smaller than the first character yields nothing rather
    // than splitting it.
    assert_eq!(truncate_bytes("\u{1f680}", 3), "");

    for budget in 0..40 {
        let out = truncate_bytes("/home/\u{043f}\u{0440}/\u{1f680}app", budget);
        assert!(out.len() <= budget);
    }
}

#[test]
fn elision_plans_follow_the_cluster_widths() {
    let widths = vec![1, 2, 1, 1, 2, 1, 1];
    assert_eq!(fit(&widths, 4), 3);
    assert_eq!(fit(&widths, 2), 1);
    assert_eq!(fit_back(&widths, 0, 3), 2);
    assert_eq!(fit_back(&widths, 6, 3), 1);
    // Fits whole: every cluster kept, no marker.
    assert_eq!(elision_head_count(&widths, 9, 9, true), 7);
    assert_eq!(elision_tail_start(&widths, 9, 9, 7, 9), 7);
    // Nothing fits in zero columns.
    assert_eq!(elision_head_count(&widths, 9, 0, true), 0);
    // Too narrow for the marker: as many leading clusters as fit.
    assert_eq!(elision_head_count(&widths, 9, 3, true), 2);
    // Middle elision at 8 columns: head up to 5 columns, tail in what is left.
    let head = elision_head_count(&widths, 9, 8, true);
    assert_eq!(head, 4);
    assert_eq!(elision_tail_start(&widths, 9, 8, head, 5), 7);
    // Start elision keeps no head; the tail gets 5 columns.
    assert_eq!(elision_head_count(&widths, 9, 8, false), 0);
    assert_eq!(elision_tail_start(&widths, 9, 8, 0, 0), 3);
}

#[test]
fn wrapped_lines_join_back_to_the_text_without_its_line_feeds() {
    let text = "ab\ncdefg\n\nhi";
    let lines = wrap_columns(text, 3);
    assert_eq!(lines, ["ab", "cde", "fg", "", "hi"]);
    assert_eq!(lines.concat(), "abcdefghi");
}
