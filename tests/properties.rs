use fast_whitespace_collapse::collapse_whitespace;
use fast_whitespace_collapse::lanes::blank_mask;

/// A plain left-to-right collapse over characters, used as the reference.
fn reference(s: &str) -> String {
    let mut out = String::new();
    let mut pending = true;
    for c in s.chars() {
        if c == ' ' || c == '\t' {
            if !pending {
                out.push(' ');
                pending = true;
            }
        } else {
            out.push(c);
            pending = false;
        }
    }
    if out.ends_with(' ') {
        out.pop();
    }
    out
}

fn samples() -> Vec<String> {
    let mut v: Vec<String> = vec![
        String::new(),
        " ".to_string(),
        "\t".to_string(),
        "a".to_string(),
        " a ".to_string(),
        "\t\ta \t b\t".to_string(),
        "こんにちは  世界\t\tПривет    мир".to_string(),
        "😀  😃\t😄 ".to_string(),
        "Line1\n   Line2\r\n\tLine3 \n".to_string(),
    ];
    // runs that start at every position around the first and second chunk
    // boundaries and carry on past them
    for start in 0..40 {
        for run in 1..20 {
            let mut s = "x".repeat(start);
            s.push_str(&" \t".repeat(run).chars().take(run).collect::<String>());
            s.push_str("yz");
            v.push(s.clone());
            s.push_str("   ");
            v.push(s);
        }
    }
    v
}

#[test]
fn idempotent_on_samples() {
    for s in samples() {
        let once = collapse_whitespace(&s);
        assert_eq!(collapse_whitespace(&once), once);
    }
}

#[test]
fn no_double_spaces_and_no_tabs() {
    for s in samples() {
        let out = collapse_whitespace(&s);
        assert!(!out.contains("  "));
        assert!(!out.contains('\t'));
    }
}

#[test]
fn no_space_at_either_end() {
    for s in samples() {
        let out = collapse_whitespace(&s);
        assert!(!out.starts_with(' '));
        assert!(!out.ends_with(' '));
    }
}

#[test]
fn other_bytes_are_kept_in_order() {
    for s in samples() {
        let out = collapse_whitespace(&s);
        let strip = |t: &str| -> Vec<u8> {
            t.bytes().filter(|b| *b != b' ' && *b != b'\t').collect()
        };
        assert_eq!(strip(&out), strip(&s));
    }
}

#[test]
fn never_longer() {
    for s in samples() {
        assert!(collapse_whitespace(&s).len() <= s.len());
    }
}

#[test]
fn matches_reference_on_samples() {
    for s in samples() {
        assert_eq!(collapse_whitespace(&s), reference(&s));
    }
}

#[test]
fn blank_inputs_give_empty() {
    assert_eq!(collapse_whitespace(""), "");
    assert_eq!(collapse_whitespace("   "), "");
    assert_eq!(collapse_whitespace("\t\t\t"), "");
    assert_eq!(collapse_whitespace(&" \t".repeat(40)), "");
}

#[test]
fn tabs_and_spaces_are_interchangeable() {
    assert_eq!(collapse_whitespace("A\tB"), "A B");
    assert_eq!(collapse_whitespace("A \tB"), "A B");
    assert_eq!(collapse_whitespace("A\t B"), "A B");
}

#[test]
fn newline_kept_and_following_run_reduced() {
    assert_eq!(collapse_whitespace("Line1\n   Line2\nLine3"), "Line1\n Line2\nLine3");
    assert_eq!(collapse_whitespace("a \n b"), "a \n b");
    assert_eq!(collapse_whitespace("a\r\n\t\tb"), "a\r\n b");
}

#[test]
fn other_whitespace_is_not_collapsed() {
    assert_eq!(collapse_whitespace("a\u{0B}\u{0C}b"), "a\u{0B}\u{0C}b");
    assert_eq!(collapse_whitespace("a\u{A0}\u{A0}b"), "a\u{A0}\u{A0}b");
}

#[test]
fn multi_byte_characters_stay_whole() {
    assert_eq!(collapse_whitespace("こんにちは  世界"), "こんにちは 世界");
    assert_eq!(collapse_whitespace("Привет    мир"), "Привет мир");
    assert_eq!(collapse_whitespace("😀  😃  😄"), "😀 😃 😄");
    // a four-byte character that straddles the first chunk boundary
    let s = format!("{}😀 \t 😃", "a".repeat(14));
    assert_eq!(collapse_whitespace(&s), format!("{}😀 😃", "a".repeat(14)));
}

#[test]
fn run_straddling_chunk_boundary() {
    // run from byte 15 into the second chunk
    let s = format!("{}{}{}", "a".repeat(15), " \t  ", "b");
    assert_eq!(collapse_whitespace(&s), format!("{} b", "a".repeat(15)));
    // run ending exactly at byte 16, then text
    let s = format!("{}{}{}", "a".repeat(12), "\t\t\t\t", "bc");
    assert_eq!(collapse_whitespace(&s), format!("{} bc", "a".repeat(12)));
    // trailing run that starts in the first chunk and ends in the scalar tail
    let s = format!("{}{}", "a".repeat(10), " ".repeat(10));
    assert_eq!(collapse_whitespace(&s), "a".repeat(10));
}

#[test]
fn tabs_inside_a_full_chunk() {
    // every blank lies in the bulk pass: tabs and spaces must both be found
    assert_eq!(collapse_whitespace("ab\tcd ef\t\tgh  ij"), "ab cd ef gh ij");
    assert_eq!(collapse_whitespace("0123456789abcd\tX"), "0123456789abcd X");
    assert_eq!(collapse_whitespace("\t123456789abcdeX"), "123456789abcdeX");
}

#[test]
fn exact_lengths_around_the_chunk_width() {
    assert_eq!(collapse_whitespace(&"x".repeat(16)), "x".repeat(16));
    assert_eq!(collapse_whitespace(&"x".repeat(17)), "x".repeat(17));
    assert_eq!(collapse_whitespace(&"x ".repeat(16)), "x ".repeat(16).trim_end());
    assert_eq!(collapse_whitespace(&"xy  ".repeat(8)), "xy ".repeat(8).trim_end());
}

#[test]
fn equals_words_joined_by_one_space() {
    for s in samples() {
        let words: Vec<&str> = s.split(|c| c == ' ' || c == '\t').filter(|w| !w.is_empty()).collect();
        assert_eq!(collapse_whitespace(&s), words.join(" "));
    }
}

#[test]
fn tabs_made_spaces_change_nothing() {
    for s in samples() {
        assert_eq!(collapse_whitespace(&s.replace('\t', " ")), collapse_whitespace(&s));
    }
}

#[test]
fn blank_mask_marks_spaces_and_tabs() {
    let chunk: [u8; 16] = *b"a b\tc\n\r  \t\x0bxy z\t";
    let expected: [u8; 16] = [
        0, 0xFF, 0, 0xFF, 0, 0, 0, 0xFF, 0xFF, 0xFF, 0, 0, 0, 0xFF, 0, 0xFF,
    ];
    assert_eq!(blank_mask(chunk), expected);
    assert_eq!(blank_mask([b' '; 16]), [0xFF; 16]);
    assert_eq!(blank_mask([b'\t'; 16]), [0xFF; 16]);
    assert_eq!(blank_mask([0x89; 16]), [0; 16]);
}
