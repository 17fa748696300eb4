use codesort::Language;
use codesort::LineNumber;
use codesort::LineNumberRange;
use codesort::LocList;

fn input_text() -> &'static str {
    r#"
pub fn on_event(
    &mut self,
    w: &mut W,
    timed_event: TimedEvent,
    con: &AppContext,
) -> Result<Command, ProgramError> {
    let cmd = match timed_event {
        // a key event
        TimedEvent {
            key_combination: Some(key),
            ..
        } => {
            self.on_key(timed_event, key, con)
        }
        // an event
        // (with a mouse)
        TimedEvent { // a tricky comment
            event: Event::Mouse(MouseEvent { kind, column, row }),
            ..
        } => { // inner block
            self.on_mouse(timed_event, kind, column, row)
        }
        // anything else
        _ => Command::None,
    };
    self.input_field.display_on(w)?;
    Ok(cmd)
}
"#
}

fn output_text() -> &'static str {
    r#"
pub fn on_event(
    &mut self,
    w: &mut W,
    timed_event: TimedEvent,
    con: &AppContext,
) -> Result<Command, ProgramError> {
    let cmd = match timed_event {
        // an event
        // (with a mouse)
        TimedEvent { // a tricky comment
            event: Event::Mouse(MouseEvent { kind, column, row }),
            ..
        } => { // inner block
            self.on_mouse(timed_event, kind, column, row)
        }
        // a key event
        TimedEvent {
            key_combination: Some(key),
            ..
        } => {
            self.on_key(timed_event, key, con)
        }
        // anything else
        _ => Command::None,
    };
    self.input_field.display_on(w)?;
    Ok(cmd)
}
"#
}

#[test]
fn test_match_struct_ranges() {
    let list = LocList::read_str(input_text(), Language::Rust).unwrap();
    let inner_range = list.range_around_line_index(15).unwrap();
    let blocks = list.block_ranges_in_range(inner_range);
    assert_eq!(
        blocks,
        vec![
            LineNumberRange { start: LineNumber::new(9).unwrap(), end: LineNumber::new(15).unwrap() },
            LineNumberRange { start: LineNumber::new(16).unwrap(), end: LineNumber::new(23).unwrap() },
            LineNumberRange { start: LineNumber::new(24).unwrap(), end: LineNumber::new(25).unwrap() },
        ]
    );
}

#[test]
fn rust_match_struct_test_match_struct() {
    let list = LocList::read_str(input_text(), Language::Rust).unwrap();
    let focused = list.focus_around_line_index(17).unwrap();
    {
        let blocks = focused.clone().focus.into_blocks();
    }
    let sorted_list = focused.sort();
    assert_eq!(sorted_list.to_text(), output_text());
}
