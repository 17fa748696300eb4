use codesort::Language;
use codesort::LocList;
use codesort::Spacing;

#[test]
fn test_restore_spacing_between() {
    let input = r#"
        pub enum CsError {
            #[error("You can't specify both --around and --range")]
            RangeAndAround,

            #[error("IO error: {0}")]
            Io(#[from] std::io::Error),

            #[error("Fmt error: {0}")]
            Fmt(#[from] std::fmt::Error), // only happens in debug

            #[error("No sortable range found around line {}", .0+1)]
            NoSortableRangeAround(LineIndex),

            #[error("Invalid range {}..{}", .start+1, .end+1)]
            InvalidRange { start: LineIndex, end: LineIndex },

            #[error("Provided range not sortable (lang: {0:?})")]
            RangeNotSortable(Language),

            #[error("Unexpected closing brace: {0}")]
            UnexpectedClosingBrace(char),

            #[error("Unclosed char literal")]
            UnclosedCharLiteral,

            #[error("Provided input not balanced")]
            InputNotBalanced,
        }
    "#;
    let list = LocList::read_str(input, Language::Rust).unwrap();
    let focused = list.focus_around_line_index(4).unwrap();

    // blocks are initially separated by a blank line
    let blocks = focused.clone().focus.into_blocks();
    let spacing = Spacing::recognize(&blocks);
    assert_eq!(spacing, Spacing::Between);

    // check that simple sort of the blocks breask the spacing
    let mut blocks = codesort::sort_blocks(blocks);
    assert_eq!(Spacing::recognize(&blocks), Spacing::Other);

    // restore the spacing, and check
    spacing.apply(&mut blocks);
    assert_eq!(Spacing::recognize(&blocks), Spacing::Between);

    // now check that calling sort on the focused automatically restores
    // the spacing
    let output = r#"
        pub enum CsError {
            #[error("Fmt error: {0}")]
            Fmt(#[from] std::fmt::Error), // only happens in debug

            #[error("Provided input not balanced")]
            InputNotBalanced,

            #[error("Invalid range {}..{}", .start+1, .end+1)]
            InvalidRange { start: LineIndex, end: LineIndex },

            #[error("IO error: {0}")]
            Io(#[from] std::io::Error),

            #[error("No sortable range found around line {}", .0+1)]
            NoSortableRangeAround(LineIndex),

            #[error("You can't specify both --around and --range")]
            RangeAndAround,

            #[error("Provided range not sortable (lang: {0:?})")]
            RangeNotSortable(Language),

            #[error("Unclosed char literal")]
            UnclosedCharLiteral,

            #[error("Unexpected closing brace: {0}")]
            UnexpectedClosingBrace(char),
        }
    "#;
    let sorted_list = focused.sort();
    assert_eq!(sorted_list.to_text(), output);
}
