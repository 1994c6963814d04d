use agentctl::runtime::diffview::{check_size, hunks, split, Hunk, CONTEXT_LINES};
use agentctl::runtime::edit::{script, Op};

/// Applies hunks to `before`: the view is exact iff this reproduces `after`.
fn apply(before: &[&str], hunks: &[Hunk]) -> Vec<String> {
    let mut out = vec![];
    let mut next = 0usize; // zero-based index of the next unconsumed before line
    for hunk in hunks {
        let first = if hunk.before_lines > 0 {
            hunk.before_start - 1
        } else {
            hunk.before_start
        };
        while next < first {
            out.push(before[next].to_string());
            next += 1;
        }
        for line in &hunk.lines {
            let (tag, text) = line.split_at(1);
            match tag {
                " " => {
                    assert_eq!(before[next], text, "context line mismatch");
                    out.push(text.to_string());
                    next += 1;
                }
                "-" => {
                    assert_eq!(before[next], text, "removed line mismatch");
                    next += 1;
                }
                "+" => out.push(text.to_string()),
                _ => panic!("bad hunk line {line:?}"),
            }
        }
    }
    out.extend(before[next..].iter().map(|s| s.to_string()));
    out
}

fn check(before: &str, after: &str) -> Vec<Hunk> {
    let (a, _) = split(before);
    let (b, _) = split(after);
    let hunks = hunks(a.as_slice(), b.as_slice(), CONTEXT_LINES);
    assert_eq!(apply(&a, &hunks), b, "{before:?} -> {after:?}");
    for hunk in &hunks {
        let changed = hunk.lines.iter().filter(|l| !l.starts_with(' ')).count();
        assert!(changed > 0, "hunk without a change");
        assert_eq!(
            hunk.before_lines,
            hunk.lines.iter().filter(|l| !l.starts_with('+')).count()
        );
        assert_eq!(
            hunk.after_lines,
            hunk.lines.iter().filter(|l| !l.starts_with('-')).count()
        );
    }
    hunks
}

#[test]
fn hunks_reproduce_the_after_text_exactly() {
    for (before, after) in [
        ("", ""),
        ("", "a\n"),
        ("a\n", ""),
        ("a\nb\nc\n", "a\nb\nc\n"),
        ("a\nb\nc\n", "a\nx\nc\n"),
        ("a\nb\nc\n", "x\na\nb\nc\n"),
        ("a\nb\nc\n", "a\nb\nc\nx\n"),
        ("a\nb\nc", "a\nb\nc\n"),
        ("a\r\nb\r\n", "a\r\nc\r\n"),
        (
            "1\n2\n3\n4\n5\n6\n7\n8\n9\n10\n",
            "1\nX\n3\n4\n5\n6\n7\n8\nY\n10\n",
        ),
        ("a\nb\na\nb\na\n", "b\na\nb\na\nb\n"),
    ] {
        check(before, after);
    }
}

#[test]
fn distant_changes_get_separate_hunks_and_near_ones_merge() {
    let before: String = (0..40).map(|i| format!("line {i}\n")).collect();
    let far = before
        .replace("line 5\n", "LINE 5\n")
        .replace("line 30\n", "LINE 30\n");
    assert_eq!(check(&before, &far).len(), 2);
    let near = before
        .replace("line 5\n", "LINE 5\n")
        .replace("line 10\n", "LINE 10\n");
    assert_eq!(check(&before, &near).len(), 1);
}

/// Deterministic pseudo-random edits, including ones past the edit-distance
/// bound, always yield exact hunks.
#[test]
fn randomized_edits_are_exact_including_past_the_edit_distance_bound() {
    let mut seed = 0x2545_f491_4f6c_dd1du64;
    let mut next = move || {
        seed ^= seed << 13;
        seed ^= seed >> 7;
        seed ^= seed << 17;
        seed
    };
    for round in 0..60 {
        let len = 1 + (next() % 300) as usize;
        let before: Vec<String> = (0..len).map(|_| format!("v{}", next() % 12)).collect();
        let mut after = before.clone();
        let edits = if round % 10 == 0 {
            3000
        } else {
            1 + (next() % 20) as usize
        };
        for _ in 0..edits {
            let at = (next() as usize) % (after.len() + 1);
            match next() % 3 {
                0 if at < after.len() => {
                    after.remove(at);
                }
                1 if at < after.len() => after[at] = format!("w{}", next() % 12),
                _ => after.insert(at, format!("n{}", next() % 12)),
            }
        }
        let (a, b) = (before.join("\n") + "\n", after.join("\n") + "\n");
        check(&a, &b);
    }
}

/// A one-line edit in a large file yields one small hunk: context scales
/// with the change, not the file.
#[test]
fn a_one_line_edit_in_a_large_file_is_one_small_hunk() {
    let before: String = (0..4000)
        .map(|i| format!("pub const C{i}: u32 = {i};\n"))
        .collect();
    assert!(before.len() > 100_000);
    let after = before.replace("C2000: u32 = 2000;", "C2000: u32 = 2001;");
    let hunks = check(&before, &after);
    assert_eq!(hunks.len(), 1);
    assert_eq!(hunks[0].lines.len(), 2 * CONTEXT_LINES + 2);
    assert_eq!(hunks[0].before_start, 2001 - CONTEXT_LINES);
}

#[test]
fn views_are_shown_whole_or_not_at_all() {
    assert!(check_size(128 * 1024).is_ok());
    assert_eq!(
        check_size(128 * 1024 + 1),
        Err(agentctl::error::Error::Invalid(
            "exact diff exceeds 128 KiB verifier context; split/replan task".into()
        ))
    );
}

#[test]
fn of_several_shortest_scripts_one_is_shown() {
    for (before, after, expected) in [
        ("abcabba", "cbabac", "--=+==-=+"),
        ("ab", "ba", "-=+"),
        ("x", "y", "-+"),
        ("axb", "ayzb", "=-++="),
        ("aab", "ab", "=-="),
        ("abab", "baba", "-===+"),
    ] {
        let a: Vec<&str> = before.split("").filter(|s| !s.is_empty()).collect();
        let b: Vec<&str> = after.split("").filter(|s| !s.is_empty()).collect();
        let shown: String = script(&a, &b)
            .into_iter()
            .map(|op| match op {
                Op::Equal => '=',
                Op::Delete => '-',
                Op::Insert => '+',
            })
            .collect();
        assert_eq!(shown, expected, "{before} -> {after}");
    }
    let replaced = check("a\nx\nb\n", "a\ny\nz\nb\n");
    assert_eq!(replaced[0].lines, [" a", "-x", "+y", "+z", " b"]);
}
