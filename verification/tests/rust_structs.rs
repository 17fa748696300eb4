use codesort::Language;
use codesort::LineNumber;
use codesort::LineNumberRange;
use codesort::LocList;

fn input() -> &'static str { r#"
/// short lived wrapping of a few things which are needed for the handling
/// of a command in a panel and won't be modified during the operation.
pub struct CmdContext<'c> {
    pub cmd: &'c Command,
    pub app: &'c AppCmdContext<'c>,
    pub panel: PanelCmdContext<'c>,
}

/// the part of the immutable command execution context which comes from the app
pub struct AppCmdContext<'c> {
    pub panel_skin: &'c PanelSkin,
    pub preview_panel: Option<PanelId>, // id of the app's preview panel
    pub stage_panel: Option<PanelId>, // id of the app's preview panel
    pub screen: Screen,
    pub con: &'c AppContext,
}

/// the part of the command execution context which comes from the panel
pub struct PanelCmdContext<'c> {

    pub areas: &'c Areas,

    pub purpose: PanelPurpose,

}
"#
}

fn output() -> &'static str { r#"
/// the part of the immutable command execution context which comes from the app
pub struct AppCmdContext<'c> {
    pub panel_skin: &'c PanelSkin,
    pub preview_panel: Option<PanelId>, // id of the app's preview panel
    pub stage_panel: Option<PanelId>, // id of the app's preview panel
    pub screen: Screen,
    pub con: &'c AppContext,
}

/// short lived wrapping of a few things which are needed for the handling
/// of a command in a panel and won't be modified during the operation.
pub struct CmdContext<'c> {
    pub cmd: &'c Command,
    pub app: &'c AppCmdContext<'c>,
    pub panel: PanelCmdContext<'c>,
}

/// the part of the command execution context which comes from the panel
pub struct PanelCmdContext<'c> {

    pub areas: &'c Areas,

    pub purpose: PanelPurpose,

}
"#
}

#[test]
fn test_find_struct_range() {
    let list = LocList::read_str(input(), Language::Rust).unwrap();
    assert_eq!(
        list.block_range_of_line_number(LineNumber::new(3).unwrap()).unwrap(),
        LineNumberRange { start: LineNumber::new(1).unwrap(), end: LineNumber::new(8).unwrap() },
    );
    assert_eq!(
        list.block_range_of_line_number(LineNumber::new(17).unwrap()).unwrap(),
        LineNumberRange { start: LineNumber::new(9).unwrap(), end: LineNumber::new(17).unwrap() },
    );
    assert_eq!(
        list.block_range_of_line_number(LineNumber::new(20).unwrap()).unwrap(),
        LineNumberRange { start: LineNumber::new(18).unwrap(), end: LineNumber::new(26).unwrap() },
    );
}

#[test]
fn test_match_struct() {
    let list = LocList::read_str(input(), Language::Rust).unwrap();
    //list.print_debug(" WHOLE ");
    let focused = list.focus_all().unwrap();
    {
        let blocks = focused.clone().focus.into_blocks();
    }
    let sorted_list = focused.sort();
    assert_eq!(sorted_list.to_text(), output());
}
