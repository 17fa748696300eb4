use codesort::CsError;
use codesort::Language;
use codesort::LineNumber;
use codesort::LineNumberRange;
use codesort::LocList;

/// Reading a text and joining the lines back gives the original text.
#[test]
fn test_round_trip_exact() {
    let input = "fn foo() {\n    let a = 1;\n}\nconst X: u32 = 0;\n";
    let list = LocList::read_str(input, Language::Rust).unwrap();
    assert_eq!(list.to_text(), input);
}

/// Sorting an already-sorted region produces byte-identical output.
#[test]
fn test_sort_idempotent() {
    let input = "
enum E {
    /// banana
    Banana,
    /// apple
    Apple,
    /// cherry
    Cherry,
}
";
    let list = LocList::read_str(input, Language::Rust).unwrap();
    let once = list.focus_around_line_index(3).unwrap().sort().to_text();
    let list2 = LocList::read_str(&once, Language::Rust).unwrap();
    let twice = list2.focus_around_line_index(3).unwrap().sort().to_text();
    assert_eq!(once, twice);
}

/// A block whose sortable-key sequence is a strict prefix of another's
/// sorts before it.
#[test]
fn test_prefix_sorts_first() {
    let shorter = LocList::read_str("a,\n", Language::Rust).unwrap();
    let longer = LocList::read_str("a,\nb,\n", Language::Rust).unwrap();
    assert!(shorter < longer);
    assert!(!(longer < shorter));
}

/// A function-like signature ending in `;` is not complete until the line
/// holding the final `;`, even though its parameter list balanced earlier.
#[test]
fn test_signature_completes_at_semicolon() {
    let input = "trait T {
    fn frob(
        a: u32,
        b: u32,
    ) -> u32
    ;
}
";
    let list = LocList::read_str(input, Language::Rust).unwrap();
    // lines 2..=5 hold the signature without the final `;`: not complete
    for end in 2..=5u32 {
        let range = LineNumberRange {
            start: LineNumber::new(2).unwrap(),
            end: LineNumber::new(end as usize).unwrap(),
        };
        assert!(!list.is_range_complete(range), "ended at {}", end);
    }
    // with the `;` line the signature is complete
    let range = LineNumberRange {
        start: LineNumber::new(2).unwrap(),
        end: LineNumber::new(6).unwrap(),
    };
    assert!(list.is_range_complete(range));
}

/// Asking for the region around a line with no sortable content — a
/// comment-only region, or a line past the end — is an error, never a
/// crash.
#[test]
fn test_no_sortable_range_around() {
    let list = LocList::read_str("// just a comment\n// another\n", Language::Rust).unwrap();
    let r = list.range_around_line_index(0);
    assert_eq!(r, Err(CsError::NoSortableRangeAround(0)));
    let r = list.clone().focus_around_line_index(1);
    assert!(matches!(r, Err(CsError::NoSortableRangeAround(1))));
    let r = list.range_around_line_index(7);
    assert_eq!(r, Err(CsError::NoSortableRangeAround(7)));
}

/// The block ranges partition the scanned range: when the first line alone
/// is already complete it is cut once, and the next range starts at the
/// following line.
#[test]
fn test_block_ranges_partition() {
    let list = LocList::read_str("a;\nb;\n", Language::Rust).unwrap();
    let range = LineNumberRange {
        start: LineNumber::new(1).unwrap(),
        end: LineNumber::new(2).unwrap(),
    };
    let blocks = list.block_ranges_in_range(range);
    assert_eq!(
        blocks,
        vec![
            LineNumberRange {
                start: LineNumber::new(1).unwrap(),
                end: LineNumber::new(1).unwrap(),
            },
            LineNumberRange {
                start: LineNumber::new(2).unwrap(),
                end: LineNumber::new(2).unwrap(),
            },
        ],
    );
}

/// An unterminated raw string anywhere in the file is a fatal error and
/// yields no output.
#[test]
fn test_unterminated_raw_string() {
    let input = "fn f() {\n    let s = r#\"never closed\n}\n";
    let r = LocList::read_str(input, Language::Rust);
    assert_eq!(r, Err(CsError::InputNotBalanced));
}

/// A character literal left open at the end of a line is a fatal error.
#[test]
fn test_unclosed_char_literal() {
    let input = "let a = '\\n";
    let r = LocList::read_str(input, Language::Rust);
    assert!(matches!(r, Err(CsError::UnclosedCharLiteral(_))));
}

/// A closing bracket with no opener is a fatal error.
#[test]
fn test_unexpected_closing_brace() {
    let r = LocList::read_str("}\n", Language::Rust);
    assert_eq!(r, Err(CsError::UnexpectedClosingBrace('}')));
}

/// A range reaching past the end of the list is invalid.
#[test]
fn test_invalid_range() {
    let list = LocList::read_str("a,\nb,\n", Language::Rust).unwrap();
    let range = LineNumberRange {
        start: LineNumber::new(1).unwrap(),
        end: LineNumber::new(9).unwrap(),
    };
    assert!(!list.range_exists(range));
    let r = list.focus(range);
    assert_eq!(
        match r {
            Err(e) => e,
            Ok(_) => panic!("expected an error"),
        },
        CsError::InvalidRange { start: 0, end: 8 },
    );
}

/// The sort key excludes comments and insignificant whitespace, so two
/// spellings of the same code compare equal.
#[test]
fn test_sort_key_strips_comments() {
    let a = LocList::read_str("foo( 1 ); // say foo\n", Language::Rust).unwrap();
    let b = LocList::read_str("foo(1);\n", Language::Rust).unwrap();
    assert_eq!(a.locs[0].sort_key, b.locs[0].sort_key);
}

/// Blank lines and comments are kept verbatim but never sortable.
#[test]
fn test_sortable_lines() {
    let list = LocList::read_str("\n// c\n#[attr]\nx,\n", Language::Rust).unwrap();
    assert!(!list.locs[0].is_sortable());
    assert!(!list.locs[1].is_sortable());
    assert!(!list.locs[2].is_sortable());
    assert!(list.locs[2].is_annotation);
    assert!(list.locs[3].is_sortable());
}

/// Blank lines at the ends of a range are trimmed, one line at least stays.
#[test]
fn test_trimmed_range() {
    let list = LocList::read_str("\na,\n\n", Language::Rust).unwrap();
    let range = list.full_range();
    let trimmed = list.trimmed_range(range);
    assert_eq!(
        trimmed,
        LineNumberRange {
            start: LineNumber::new(2).unwrap(),
            end: LineNumber::new(2).unwrap(),
        },
    );
}

/// The language is picked from the file extension.
#[test]
fn test_detect() {
    assert_eq!(Language::detect("rs"), Some(Language::Rust));
    assert_eq!(Language::detect("java"), Some(Language::Java));
    assert_eq!(Language::detect("js"), Some(Language::Javascript));
    assert_eq!(Language::detect("py"), None);
}

/// Line numbers are 1-based; index conversions agree.
#[test]
fn test_line_numbers() {
    assert_eq!(LineNumber::new(0), None);
    let n = LineNumber::new(3).unwrap();
    assert_eq!(n.to_index(), 2);
    assert_eq!(LineNumber::from_index(2), n);
    let range = LineNumberRange::of_line(n);
    assert!(range.contains(n));
    assert!(!range.contains(LineNumber::new(4).unwrap()));
}

/// Sorting in place around a line number works like the focused sort.
#[test]
fn test_sort_around_line_number() {
    let input = "enum E {
    B,
    A,
}
";
    let mut list = LocList::read_str(input, Language::Rust).unwrap();
    list.sort_around_line_number(LineNumber::new(2).unwrap()).unwrap();
    assert_eq!(list.to_text(), "enum E {\n    A,\n    B,\n}\n");
}

/// Three decorated variants in source order `[None, Found, NotFound]`: the
/// sort yields `[Found, NotFound, None]`, each doc comment staying glued to
/// its own variant.
#[test]
fn test_decorated_variants() {
    let input = "
pub enum ContentSearchResult {
    /// the file wasn't searched because it's binary or too big
    NotSuitable,
    /// the needle has been found at the given pos
    Found {
        pos: usize,
    },
    /// the needle hasn't been found
    NotFound, // no match
}
";
    let expected = "
pub enum ContentSearchResult {
    /// the needle has been found at the given pos
    Found {
        pos: usize,
    },
    /// the needle hasn't been found
    NotFound, // no match
    /// the file wasn't searched because it's binary or too big
    NotSuitable,
}
";
    let list = LocList::read_str(input, Language::Rust).unwrap();
    let focused = list.focus_around_line_index(5).unwrap();
    assert_eq!(focused.sort().to_text(), expected);
}

/// Sorting twice is byte-stable also when blocks are separated by blank
/// lines and the repair pass has to run.
#[test]
fn test_sort_idempotent_with_spacing() {
    let input = "
enum E {

    /// banana
    Banana,

    /// apple
    Apple,

    /// cherry
    Cherry,
}
";
    let list = LocList::read_str(input, Language::Rust).unwrap();
    let once = list.focus_around_line_index(3).unwrap().sort().to_text();
    let list2 = LocList::read_str(&once, Language::Rust).unwrap();
    let twice = list2.focus_around_line_index(3).unwrap().sort().to_text();
    assert_eq!(once, twice);
}

/// The Java-like profile sorts by the same block logic.
#[test]
fn test_java_sorting() {
    let input = "class A {
    void zeta() {
    }
    void alpha() {
    }
}
";
    let expected = "class A {
    void alpha() {
    }
    void zeta() {
    }
}
";
    let list = LocList::read_str(input, Language::Java).unwrap();
    let sorted = list.focus_around_line_index(1).unwrap().sort().to_text();
    assert_eq!(sorted, expected);
}

/// A Java annotation travels with its method and never takes part in the
/// comparison.
#[test]
fn test_java_annotation_glued() {
    let input = "class A {
    @Zzz
    void alpha() {
    }
    @Aaa
    void zeta() {
    }
}
";
    let expected = "class A {
    @Zzz
    void alpha() {
    }
    @Aaa
    void zeta() {
    }
}
";
    let list = LocList::read_str(input, Language::Java).unwrap();
    let sorted = list.focus_around_line_index(2).unwrap().sort().to_text();
    assert_eq!(sorted, expected);
}
