use codesort::languages::rust::check_balanced;

#[test]
fn test_check_balanced_rust_not_balanced_until_end() {
    let mut test_cases = vec![
        vec![
r#"let is_double_quote = if c == b'"' {
"#,
"    true\n",
"} else {\n",
"    false\n",
"};\n",
        ],
        vec![
            "   SpecialHandlingShortcut::None => SpecialHandling {\n",
            "       show: Default, list: Default, sum: Default,\n",
            "   },\n",
        ],
        vec![
            "   SpecialHandlingShortcut::None => SpecialHandling {\n",
            "       show: Default, list: Default, sum: Default,\n",
            "   },\n",
        ],
        vec![
            "/// useless comments)\n",
            "match lazy_regex!(r#\"bad regex)\"#) {\n",
            "    Ok(_) => \"ok\",\n",
            "    Err(_) => \"err\",\n",
            "},\n",
        ],
        vec![
            r#"   Internal::open_leave => {\n"#,
            r#"       if let Some(selection) = self.selection() {\n"#,
            r#"           selection.to_opener(con)?\n"#,
            r#"       } else {\n"#,
            r#"           CmdResult::error("no selection to open")\n"#,
            r#"       }\n"#,
            r#"   }\n"#,
        ],
    ];
    for mut lines in test_cases.drain(..) {
                let mut code = String::new();
        let last_line = lines.pop().unwrap();
        for (i, line) in lines.iter().enumerate() {
            code.push_str(line);
            let balanced =
                check_balanced(&code).filter(|b| b.last_significant_char.is_some());
            assert!(balanced.is_none(), "line {} shouldn't balance", i);
        }
        code.push_str(last_line);
        assert!(check_balanced(&code).is_some(), "last line should balance");
    }
}

#[test]
fn test_check_balanced_rust_ending_in_comma() {
    let mut test_cases = vec![
        r#"
            SpecialHandlingShortcut::None => SpecialHandling {
                show: Default, list: Default, sum: Default,
            }, // some inane comment
            "#,
        r#"
            /// Obsolete, kept for compatibility: you should now use capture_mouse
            #[serde(alias="disable-mouse-capture")]
            pub disable_mouse_capture: Option<bool>,
            "#,
    ];
    for code in test_cases.drain(..) {
        let balanced = check_balanced(code).unwrap();
        assert_eq!(balanced.last_significant_char, Some(','));
    }
}
