use codesort::Language;
use codesort::LocList;

fn input_text() -> &'static str {
    r#"
pub fn on_event(
    &mut self,
    w: &mut W,
    timed_event: TimedEvent,
    con: &AppContext,
) -> Result<Command, ProgramError> {
    let cmd = match timed_event {

        // a key event
        TimedEvent {
            key_combination: Some(key),
            ..
        } => {
            self.on_key(timed_event, key, con)
        }

        // an event
        // (with a mouse)
        TimedEvent {
            event: Event::Mouse(MouseEvent { kind, column, row }),
            ..
        } => {
            self.on_mouse(timed_event, kind, column, row)
        }

        // anything else
        _ => Command::None,
    };
    self.input_field.display_on(w)?;
    Ok(cmd)
}
"#
}

fn output_text() -> &'static str {
    r#"
pub fn on_event(
    &mut self,
    w: &mut W,
    timed_event: TimedEvent,
    con: &AppContext,
) -> Result<Command, ProgramError> {
    let cmd = match timed_event {

        // an event
        // (with a mouse)
        TimedEvent {
            event: Event::Mouse(MouseEvent { kind, column, row }),
            ..
        } => {
            self.on_mouse(timed_event, kind, column, row)
        }

        // a key event
        TimedEvent {
            key_combination: Some(key),
            ..
        } => {
            self.on_key(timed_event, key, con)
        }

        // anything else
        _ => Command::None,
    };
    self.input_field.display_on(w)?;
    Ok(cmd)
}
"#
}

#[test]
fn test_match_struct_with_spaces() {
    let list = LocList::read_str(input_text(), Language::Rust).unwrap();
    //list.print_debug(" WHOLE ");
    let focused = list.focus_around_line_index(26).unwrap();
    {
        let blocks = focused.clone().focus.into_blocks();
    }
    let sorted_list = focused.sort();
    assert_eq!(sorted_list.to_text(), output_text());
}
