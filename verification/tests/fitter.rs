use herdr_starship::ansi::{split_ansi_spans, strip_ansi, Span};
use herdr_starship::fitter::{abbreviate_directory, available_width, fit, fits, Module};
use herdr_starship::truncate::{keep_pieces, truncate_to_width, truncate_with_ellipsis};
use herdr_starship::width::{
    correct_width, display_width, glyph_display_width, grapheme_width, is_private_use,
};

fn module(name: &str, content: &str) -> Module {
    Module { name: name.to_string(), content: content.to_string() }
}

/// Full module set fits budget. Returns modules unchanged.
#[test]
fn fit_everything_fits_returns_unchanged() {
    let modules = vec![
        Module { name: "directory".into(), content: "~/code".into() },
        Module { name: "git_branch".into(), content: "main".into() },
    ];
    let result = fit(modules.clone(), 26);

    assert_eq!(result, modules);
}

/// Drops `git_state` alone to fix overage. Last in input order means top drop
/// priority, same as any other name in that spot. Other modules stay whole.
#[test]
fn fit_drop_git_state_alone_resolves_rest_untouched() {
    let modules = vec![
        Module { name: "directory".into(), content: "~/code".into() },
        Module { name: "git_branch".into(), content: "main".into() },
        Module { name: "git_status".into(), content: "M2".into() },
        Module { name: "git_state".into(), content: "REBASING".into() },
    ];
    let result = fit(modules, 21);

    assert_eq!(
        result,
        vec![
            Module { name: "directory".into(), content: "~/code".into() },
            Module { name: "git_branch".into(), content: "main".into() },
            Module { name: "git_status".into(), content: "M2".into() },
        ]
    );
}

/// Drop cascade removes `git_state` and `git_status` only. `directory` and
/// `git_branch` survive whole.
#[test]
fn fit_drop_cascade_stops_once_git_state_and_git_status_are_gone() {
    let modules = vec![
        Module { name: "directory".into(), content: "~/code".into() },
        Module { name: "git_branch".into(), content: "main".into() },
        Module { name: "git_status".into(), content: "M2".into() },
        Module { name: "git_state".into(), content: "REBASING".into() },
    ];
    let result = fit(modules, 13);

    assert_eq!(
        result,
        vec![
            Module { name: "directory".into(), content: "~/code".into() },
            Module { name: "git_branch".into(), content: "main".into() },
        ]
    );
}

/// Priority follows input order, not a fixed name list. Moving `directory` last
/// degrades it first, ahead of `git_status`/`git_branch`/`git_state`.
#[test]
fn fit_priority_follows_module_input_order() {
    let modules = vec![
        Module { name: "git_state".into(), content: "REBASING".into() },
        Module { name: "git_status".into(), content: "M2".into() },
        Module { name: "git_branch".into(), content: "main".into() },
        Module { name: "directory".into(), content: "~/code".into() },
    ];
    let result = fit(modules, 21);

    assert_eq!(
        result,
        vec![
            Module { name: "git_state".into(), content: "REBASING".into() },
            Module { name: "git_status".into(), content: "M2".into() },
            Module { name: "git_branch".into(), content: "main".into() },
            Module { name: "directory".into(), content: "code".into() },
        ]
    );
}

/// `directory` drops entirely once ellipsis alone has no room. No module has a
/// floor. `git_state` drops here too, at zero budget.
#[test]
fn fit_directory_drops_when_no_room_even_truncated() {
    let modules = vec![
        Module { name: "directory".into(), content: "abcdefghij".into() },
        Module { name: "git_state".into(), content: "Z".into() },
    ];
    let result = fit(modules, 0);

    assert_eq!(result, Vec::<Module>::new());
}

/// abbreviate keeps ANSI styling around the basename, real starship
/// output shape. `directory` is last in input order, so it degrades first, ahead
/// of `git_state`.
#[test]
fn fit_abbreviate_directory_preserves_ansi_styling() {
    let modules = vec![
        Module { name: "git_state".into(), content: "REBASING".into() },
        Module {
            name: "directory".into(),
            content: "\x1b[1;33m~/code/herdr-starship\x1b[0m".into(),
        },
    ];
    let result = fit(modules, 25);

    assert_eq!(
        result,
        vec![
            Module { name: "git_state".into(), content: "REBASING".into() },
            Module {
                name: "directory".into(),
                content: "\x1b[1;33mherdr-starship\x1b[0m".into(),
            },
        ]
    );
}

/// Abbreviate shortens `directory` to its basename.
#[test]
fn fit_abbreviate_directory_to_basename() {
    let modules = vec![
        Module { name: "git_state".into(), content: "REBASING".into() },
        Module { name: "directory".into(), content: "~/code/herdr-starship".into() },
    ];
    let result = fit(modules, 25);

    assert_eq!(
        result,
        vec![
            Module { name: "git_state".into(), content: "REBASING".into() },
            Module { name: "directory".into(), content: "herdr-starship".into() },
        ]
    );
}

/// Hard truncate appends ellipsis and cuts at a safe grapheme boundary.
#[test]
fn fit_hard_truncate_appends_ellipsis_at_safe_boundary() {
    let modules = vec![
        Module { name: "git_state".into(), content: "Z".into() },
        Module { name: "directory".into(), content: "/x/abcdefghij".into() },
    ];
    let result = fit(modules, 6);

    assert_eq!(
        result,
        vec![
            Module { name: "git_state".into(), content: "Z".into() },
            Module { name: "directory".into(), content: "abc…".into() },
        ]
    );
}

/// No module is exempt from dropping, including `git_state`. Alone, it drops when
/// its content does not fit the budget.
#[test]
fn fit_git_state_drops_when_it_alone_exceeds_budget() {
    let modules = vec![Module { name: "git_state".into(), content: "(REBASING 1/1)".into() }];
    let result = fit(modules, 1);

    assert_eq!(result, Vec::<Module>::new());
}

/// Empty modules list returns empty, no panic.
#[test]
fn fit_empty_modules_returns_empty() {
    let result = fit(vec![], 26);

    assert_eq!(result, Vec::<Module>::new());
}

/// clamps Private-Use-Area codepoint width to at least two columns.
/// Starship emits nerd-font icons as PUA codepoints, and terminals disagree on
/// their real width.
#[test]
fn display_width_pua_codepoint_clamped_to_minimum_two() {
    let result = display_width("\u{e5ff}");

    assert_eq!(result, 2);
}

/// double-width glyph at the truncation boundary moves the cut point.
/// A starship nerd-font icon never splits mid-glyph.
#[test]
fn fit_double_width_glyph_at_boundary_not_split() {
    let modules = vec![
        Module { name: "git_state".into(), content: "Z".into() },
        Module { name: "directory".into(), content: "abc字".into() },
    ];
    let result = fit(modules, 6);

    assert_eq!(
        result,
        vec![
            Module { name: "git_state".into(), content: "Z".into() },
            Module { name: "directory".into(), content: "abc…".into() },
        ]
    );
}

/// strips escape sequences but keeps the visible text. Herdr's token
/// store mangles ANSI left in a value, so this must run before every push.
#[test]
fn strip_ansi_removes_escape_sequences_keeps_text() {
    let result = strip_ansi("\x1b[1;33mfoo\x1b[0m bar");

    assert_eq!(result, "foo bar");
}

/// ANSI escape sequence contributes zero display columns.
#[test]
fn display_width_ansi_escape_sequence_not_counted() {
    let result = display_width("\x1b[1;33mfoo\x1b[0m");

    assert_eq!(result, 3);
}

/// Truncation never cuts inside an ANSI escape sequence.
#[test]
fn truncate_to_width_never_splits_ansi_escape_sequence() {
    let result = truncate_to_width("\x1b[1;33mfoobar\x1b[0m", 3);

    assert_eq!(result, "\x1b[1;33mfoo\x1b[0m");
}

/// Every span is handed back, text and control sequences in turn.
#[test]
fn split_ansi_spans_tells_text_from_control_sequences() {
    let spans = split_ansi_spans("a\x1b[1mb\x1b[0mc");
    let parts: Vec<String> = spans
        .iter()
        .map(|span| match span {
            Span::Text(t) => format!("T{t}"),
            Span::Escape(e) => format!("E{e}"),
        })
        .collect();

    assert_eq!(parts, vec!["Ta", "E\x1b[1m", "Tb", "E\x1b[0m", "Tc"]);
}

/// A sequence that never ends takes the rest of the text.
#[test]
fn split_ansi_spans_unterminated_sequence_takes_the_rest() {
    assert_eq!(strip_ansi("ab\x1b[12;34"), "ab");
    assert_eq!(split_ansi_spans("ab\x1b[12;34").len(), 2);
}

/// An escape character without a bracket is plain text.
#[test]
fn strip_ansi_keeps_a_lone_escape_character() {
    assert_eq!(strip_ansi("a\x1bb"), "a\x1bb");
    assert_eq!(strip_ansi(""), "");
}

/// A removed sequence can bring a new one together, so stripping once is not always enough.
#[test]
fn strip_ansi_can_leave_a_sequence_that_came_together() {
    let once = strip_ansi("\x1b\x1b[m[x");

    assert_eq!(once, "\x1b[x");
    assert_eq!(strip_ansi(&once), "");
}

#[test]
fn glyph_widths_follow_unicode_and_the_private_use_rule() {
    assert_eq!(glyph_display_width('a'), 1);
    assert_eq!(glyph_display_width('\u{5b57}'), 2);
    assert_eq!(glyph_display_width('\u{301}'), 0);
    assert_eq!(glyph_display_width('\n'), 0);
    assert_eq!(glyph_display_width('\u{17d8}'), 3);
    assert_eq!(glyph_display_width('\u{f0000}'), 2);
}

#[test]
fn correct_width_raises_private_use_glyphs_only() {
    assert_eq!(correct_width('\u{e000}', Some(1)), 2);
    assert_eq!(correct_width('\u{e000}', None), 2);
    assert_eq!(correct_width('\u{e000}', Some(3)), 3);
    assert_eq!(correct_width('a', Some(1)), 1);
    assert_eq!(correct_width('a', None), 0);
}

#[test]
fn is_private_use_covers_three_ranges() {
    assert!(is_private_use('\u{e000}') && is_private_use('\u{f8ff}'));
    assert!(is_private_use('\u{f0000}') && is_private_use('\u{ffffd}'));
    assert!(is_private_use('\u{100000}') && is_private_use('\u{10fffd}'));
    assert!(!is_private_use('\u{f900}') && !is_private_use('a'));
}

/// A combining mark belongs to the grapheme before it and takes no column.
#[test]
fn grapheme_width_sums_its_characters() {
    assert_eq!(grapheme_width("e\u{301}"), 1);
    assert_eq!(grapheme_width(""), 0);
    assert_eq!(display_width("e\u{301}x\u{5b57}"), 4);
}

/// A grapheme of several characters is kept or cut as a whole.
#[test]
fn truncate_to_width_never_splits_a_grapheme() {
    assert_eq!(truncate_to_width("ae\u{301}b", 2), "ae\u{301}");
    assert_eq!(truncate_to_width("a\u{5b57}b", 2), "a");
}

/// Once something was cut, no later text comes back, even if it would fit.
#[test]
fn truncate_to_width_keeps_no_text_after_the_cut() {
    assert_eq!(truncate_to_width("a\u{5b57}\x1b[0mb", 2), "a\x1b[0m");
}

#[test]
fn truncate_to_width_zero_keeps_only_control_sequences() {
    assert_eq!(truncate_to_width("\x1b[1mab\x1b[0m", 0), "\x1b[1m\x1b[0m");
}

#[test]
fn truncate_with_ellipsis_leaves_text_that_fits() {
    assert_eq!(truncate_with_ellipsis("abcd", 4), "abcd");
    assert_eq!(truncate_with_ellipsis("abcde", 4), "abc\u{2026}");
    assert_eq!(truncate_with_ellipsis("abcde", 0), "\u{2026}");
}

#[test]
fn keep_pieces_stops_at_the_first_that_is_too_wide() {
    let pieces = vec!["ab".to_string(), "c".to_string(), "d".to_string()];
    let mut out = "<".to_string();
    let result = keep_pieces(&mut out, &pieces, &vec![2, 5, 1], 4);

    assert_eq!(result, (2, false));
    assert_eq!(out, "<ab");

    let mut out = String::new();
    let result = keep_pieces(&mut out, &pieces, &vec![2, 1, 1], 4);

    assert_eq!(result, (4, true));
    assert_eq!(out, "abcd");
}

#[test]
fn abbreviate_directory_shortens_the_last_text_with_a_path() {
    assert_eq!(abbreviate_directory("~/code/herdr-starship"), "herdr-starship");
    assert_eq!(abbreviate_directory("\x1b[1m~/a/b\x1b[0m"), "\x1b[1mb\x1b[0m");
    assert_eq!(abbreviate_directory("plain"), "plain");
}

#[test]
fn fits_counts_a_separator_between_modules() {
    let modules = vec![module("a", "xx"), module("b", "yy")];

    assert!(fits(&modules, 5));
    assert!(!fits(&modules, 4));
    assert!(fits(&vec![], 0));
}

#[test]
fn available_width_is_what_the_others_leave() {
    let modules = vec![module("git_state", "Z"), module("directory", "abcdefghij")];

    assert_eq!(available_width(&modules, 6, "directory"), 4);
    assert_eq!(available_width(&modules, 1, "directory"), 0);
}

/// What fits is left alone, so fitting twice is fitting once.
#[test]
fn fit_is_idempotent_on_a_cut_directory() {
    let modules = vec![module("git_state", "Z"), module("directory", "/x/abcdefghij")];
    let once = fit(modules, 6);

    assert_eq!(fit(once.clone(), 6), once);
    assert!(fits(&once, 6));
}

/// The first modules are the last to go.
#[test]
fn fit_keeps_the_first_modules() {
    let modules = vec![module("a", "1111"), module("b", "2222"), module("c", "3333")];

    assert_eq!(fit(modules.clone(), 9), modules[..2].to_vec());
    assert_eq!(fit(modules.clone(), 4), modules[..1].to_vec());
}

/// Printable ASCII is cut to as many characters as there are columns.
#[test]
fn truncate_to_width_cuts_ascii_by_length() {
    assert_eq!(truncate_to_width("hello world", 5), "hello");
    assert_eq!(truncate_to_width("hello", 9), "hello");
    assert_eq!(truncate_to_width("ab\x1b[1mcd\x1b[0mef", 3), "ab\x1b[1mc\x1b[0m");
    assert_eq!(truncate_to_width(" ~", 1), " ");
}

/// The ellipsis takes one column, so that what was cut still fits.
#[test]
fn truncate_with_ellipsis_fits_from_one_column_on() {
    assert_eq!(display_width("\u{2026}"), 1);
    for max_width in 1..12 {
        assert!(display_width(&truncate_with_ellipsis("hello world!", max_width)) <= max_width);
    }
    assert_eq!(truncate_with_ellipsis("hello", 1), "\u{2026}");
}
