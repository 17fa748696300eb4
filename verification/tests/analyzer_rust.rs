use codesort::Language;
use codesort::LineNumber;
use codesort::LineNumberRange;
use codesort::LocList;

#[test]
fn test_match_arms() {
    let input: &str = r#"
    impl From<SpecialHandlingShortcut> for SpecialHandling {
        fn from(shortcut: SpecialHandlingShortcut) -> Self {
            use Directive::*;
            match shortcut {
                SpecialHandlingShortcut::None => SpecialHandling {
                    show: Default, list: Default, sum: Default,
                },
                SpecialHandlingShortcut::Enter => SpecialHandling {
                    show: Always, list: Always, sum: Always,
                },
                SpecialHandlingShortcut::NoEnter => SpecialHandling {
                    show: Default, list: Never, sum: Never,
                },
                /// when it's hiding
                #[cfg(feature = "hide")]
                SpecialHandlingShortcut::Hide => SpecialHandling {
                    show: Never, list: Default, sum: Never,
                },
                SpecialHandlingShortcut::NoHide => SpecialHandling {
                    show: Always, list: Default, sum: Default,
                },
            }
        }
    }
    "#;
    let output: &str = r#"
    impl From<SpecialHandlingShortcut> for SpecialHandling {
        fn from(shortcut: SpecialHandlingShortcut) -> Self {
            use Directive::*;
            match shortcut {
                SpecialHandlingShortcut::Enter => SpecialHandling {
                    show: Always, list: Always, sum: Always,
                },
                /// when it's hiding
                #[cfg(feature = "hide")]
                SpecialHandlingShortcut::Hide => SpecialHandling {
                    show: Never, list: Default, sum: Never,
                },
                SpecialHandlingShortcut::NoEnter => SpecialHandling {
                    show: Default, list: Never, sum: Never,
                },
                SpecialHandlingShortcut::NoHide => SpecialHandling {
                    show: Always, list: Default, sum: Default,
                },
                SpecialHandlingShortcut::None => SpecialHandling {
                    show: Default, list: Default, sum: Default,
                },
            }
        }
    }
    "#;
    let list = LocList::read_str(input, Language::Rust).unwrap();
    assert!(list.locs[5].starts_with("SpecialHandlingShortcut::None"));
    assert!(list.locs[8].starts_with("SpecialHandlingShortcut::Enter"));
    assert!(list.locs[8] < list.locs[5]);
    let range = list.range_around_line_index(8).unwrap();
    assert_eq!(
        range,
        LineNumberRange {
            start: LineNumber::new(6).unwrap(),
            end: LineNumber::new(22).unwrap(),
        }
    );
    let focused = list.focus(range).unwrap();
    {
        let blocks = focused.clone().focus.into_blocks();
                assert!(blocks[1] < blocks[0]);
        assert!(blocks[3] < blocks[0]);
    }
    let sorted_list = focused.sort();
    assert_eq!(sorted_list.to_text(), output);
}

#[test]
fn test_where_comma() {
    let input: &str = r#"
        trait Foo {}

        struct Bar<T>(T);
        struct Baz<T>(T);
        struct Blee<T>(T);

        impl<T> Foo for Blee<T>
        where
            T: Copy,
        {
            // ...
        }

        impl<T> Foo for Baz<T>
        where
            T: Copy,
        {
            // ...
        }

        impl<T> Foo for Bar<T>
        where
            T: Copy,
        {
            // ...
        }

        fn main() {}
    "#;
    let output: &str = r#"

        fn main() {}

        impl<T> Foo for Bar<T>
        where
            T: Copy,
        {
            // ...
        }

        impl<T> Foo for Baz<T>
        where
            T: Copy,
        {
            // ...
        }

        impl<T> Foo for Blee<T>
        where
            T: Copy,
        {
            // ...
        }

        struct Bar<T>(T);
        struct Baz<T>(T);
        struct Blee<T>(T);

        trait Foo {}
    "#;
    let list = LocList::read_str(input, Language::Rust).unwrap();
    let focused = list.focus_all().unwrap();
    let sorted_list = focused.sort();
    assert_eq!(sorted_list.to_text().trim(), output.trim());
}

#[test]
fn test_completion_rust() {
    let test_cases = vec![
        r#"let is_double_quote = if c == b'"' {
    true
        } else {
            false
        };  // the end"#,
        r#"   SpecialHandlingShortcut::None => SpecialHandling {
           show: Default, list: Default, sum: Default,
       },"#,
        r##"#[test]
        fn test_unescape_char_bad() {
            check("", EscapeError::ZeroChars);
            check(r"\", EscapeError::LoneSlash);
            check("\n", EscapeError::EscapeOnlyChar);
            check("\t", EscapeError::EscapeOnlyChar);
            check("'", EscapeError::EscapeOnlyChar);
            check("\r", EscapeError::BareCarriageReturn);
        }"##,
        r###"
        fn fun() {
            let tricky = r#"#"#;
        }
        "###,
    ];
    for code in test_cases {
        let list = LocList::read_str(code, Language::Rust).unwrap();
        assert!(list.is_complete());
    }
}
