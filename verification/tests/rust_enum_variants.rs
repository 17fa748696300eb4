use codesort::Language;
use codesort::LocList;

#[test]
fn test_enum_variants_simple_with_spaces() {
    let input: &str = r#"
    /// result of a full text search
    #[derive(Debug, Clone, Copy, PartialEq)]
    pub enum ContentSearchResult {

        /// the file wasn't searched because it's binary or too big
        NotSuitable,

        /// the needle has been found at the given pos
        Found {
            pos: usize,
        },

        /// the needle hasn't been found
        NotFound, // no match
    }
    "#;

    let output: &str = r#"
    /// result of a full text search
    #[derive(Debug, Clone, Copy, PartialEq)]
    pub enum ContentSearchResult {

        /// the needle has been found at the given pos
        Found {
            pos: usize,
        },

        /// the needle hasn't been found
        NotFound, // no match

        /// the file wasn't searched because it's binary or too big
        NotSuitable,
    }
    "#;

    let list = LocList::read_str(input, Language::Rust).unwrap();
    //list.print_debug(" WHOLE ");
    let focused = list.focus_around_line_index(6).unwrap();
    {
        let blocks = focused.clone().focus.into_blocks();
    }
    let sorted_list = focused.sort();
    assert_eq!(sorted_list.to_text(), output);
}

#[test]
fn test_enum_variants_simple_without_space() {
    let input: &str = r#"
    #[derive(Clone, Debug, Copy, Deserialize, PartialEq, Eq)]
    #[serde(rename_all = "snake_case")]
    pub enum SpecialHandlingShortcut {
        None,
        Enter,
        #[serde(alias = "no-enter")]
        NoEnter,
        Hide,
        #[serde(alias = "no-hide")]
        NoHide,
    }
    "#;

    let output: &str = r#"
    #[derive(Clone, Debug, Copy, Deserialize, PartialEq, Eq)]
    #[serde(rename_all = "snake_case")]
    pub enum SpecialHandlingShortcut {
        Enter,
        Hide,
        #[serde(alias = "no-enter")]
        NoEnter,
        #[serde(alias = "no-hide")]
        NoHide,
        None,
    }
    "#;

    let mut list = LocList::read_str(input, Language::Rust).unwrap();
    list.sort_around_line_index(6).unwrap();
    assert_eq!(list.to_text(), output);
}
