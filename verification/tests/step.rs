use tape_machine::error::MachineError;
use tape_machine::machine::Machine;

fn machine_with(text: &str) -> Machine {
    let mut machine = Machine::new();
    machine.parse(String::from(text));
    machine
}

#[test]
fn forward_onto_a_missing_cell_grows_the_tape_by_one_zero() {
    let mut machine = machine_with(">");
    assert_eq!(machine.step(0), Ok(None));
    assert_eq!(machine.mem(), &[0, 0]);
    assert_eq!(machine.m(), 1);
    assert_eq!(machine.p(), 1);
}

#[test]
fn forward_onto_an_existing_cell_leaves_the_tape_alone() {
    let mut machine = machine_with(">+<>");
    for _ in 0..4 {
        assert_eq!(machine.step(0), Ok(None));
    }
    assert_eq!(machine.mem(), &[0, 1]);
    assert_eq!(machine.m(), 1);
    assert_eq!(machine.p(), 4);
}

#[test]
fn forward_grows_the_tape_one_cell_at_a_time() {
    let mut machine = machine_with(">>>");
    for expected in 2..=4 {
        assert_eq!(machine.step(0), Ok(None));
        assert_eq!(machine.mem().len(), expected);
        assert_eq!(machine.m(), expected - 1);
    }
    assert_eq!(machine.mem(), &[0, 0, 0, 0]);
}

#[test]
fn backward_moves_the_data_pointer_down() {
    let mut machine = machine_with("><");
    assert_eq!(machine.step(0), Ok(None));
    assert_eq!(machine.step(0), Ok(None));
    assert_eq!(machine.m(), 0);
    assert_eq!(machine.p(), 2);
    assert_eq!(machine.mem(), &[0, 0]);
}

#[test]
fn backward_at_cell_zero_fails_and_changes_nothing() {
    let mut machine = machine_with("+<");
    assert_eq!(machine.step(0), Ok(None));
    assert_eq!(machine.step(0), Err(MachineError::AddressBelowZero));
    assert_eq!(machine.m(), 0);
    assert_eq!(machine.p(), 1);
    assert_eq!(machine.mem(), &[1]);
    assert_eq!(machine.step(0), Err(MachineError::AddressBelowZero));
    assert_eq!(machine.m(), 0);
    assert_eq!(machine.p(), 1);
    assert_eq!(machine.mem(), &[1]);
}

#[test]
fn increment_adds_one_to_the_current_cell() {
    let mut machine = machine_with("+++");
    for expected in 1..=3 {
        assert_eq!(machine.step(0), Ok(None));
        assert_eq!(machine.mem(), &[expected]);
    }
    assert_eq!(machine.p(), 3);
}

#[test]
fn increment_wraps_from_the_largest_value_to_zero() {
    let mut machine = machine_with(",+");
    assert_eq!(machine.step(u32::MAX), Ok(None));
    assert_eq!(machine.mem(), &[u32::MAX]);
    assert_eq!(machine.step(0), Ok(None));
    assert_eq!(machine.mem(), &[0]);
}

#[test]
fn decrement_takes_one_off_the_current_cell() {
    let mut machine = machine_with(",-");
    assert_eq!(machine.step(10), Ok(None));
    assert_eq!(machine.step(0), Ok(None));
    assert_eq!(machine.mem(), &[9]);
}

#[test]
fn decrement_wraps_from_zero_to_the_largest_value() {
    let mut machine = machine_with("-");
    assert_eq!(machine.step(0), Ok(None));
    assert_eq!(machine.mem(), &[4294967295]);
    assert_eq!(machine.p(), 1);
}

#[test]
fn decrement_then_increment_returns_to_zero() {
    let mut machine = machine_with("-+");
    assert_eq!(machine.step(0), Ok(None));
    assert_eq!(machine.step(0), Ok(None));
    assert_eq!(machine.mem(), &[0]);
}

#[test]
fn increment_and_decrement_touch_only_the_current_cell() {
    let mut machine = machine_with("+>++>+++<-");
    while !machine.halted() {
        assert_eq!(machine.step(0), Ok(None));
    }
    assert_eq!(machine.mem(), &[1, 1, 3]);
    assert_eq!(machine.m(), 1);
}

#[test]
fn output_emits_the_cell_as_a_character() {
    let mut machine = machine_with(",.");
    assert_eq!(machine.step(65), Ok(None));
    assert_eq!(machine.step(0), Ok(Some('A')));
    assert_eq!(machine.mem(), &[65]);
    assert_eq!(machine.p(), 2);
}

#[test]
fn output_of_a_zero_cell_emits_the_null_character() {
    let mut machine = machine_with(".");
    assert_eq!(machine.step(0), Ok(Some('\0')));
}

#[test]
fn output_emits_characters_beyond_ascii() {
    let mut machine = machine_with(",.,.,.,.");
    assert_eq!(machine.step(0xE9), Ok(None));
    assert_eq!(machine.step(0), Ok(Some('é')));
    assert_eq!(machine.step(0x1F600), Ok(None));
    assert_eq!(machine.step(0), Ok(Some('\u{1F600}')));
    assert_eq!(machine.step(0xD7FF), Ok(None));
    assert_eq!(machine.step(0), Ok(Some('\u{D7FF}')));
    assert_eq!(machine.step(0x10FFFF), Ok(None));
    assert_eq!(machine.step(0), Ok(Some('\u{10FFFF}')));
}

#[test]
fn output_of_a_surrogate_emits_nothing() {
    let mut machine = machine_with(",.,.,.");
    assert_eq!(machine.step(0xD800), Ok(None));
    assert_eq!(machine.step(0), Ok(None));
    assert_eq!(machine.step(0xDFFF), Ok(None));
    assert_eq!(machine.step(0), Ok(None));
    assert_eq!(machine.step(0xE000), Ok(None));
    assert_eq!(machine.step(0), Ok(Some('\u{E000}')));
    assert_eq!(machine.p(), 6);
    assert_eq!(machine.mem(), &[0xE000]);
}

#[test]
fn output_of_a_value_past_the_last_code_point_emits_nothing() {
    let mut machine = machine_with(",.,.");
    assert_eq!(machine.step(0x110000), Ok(None));
    assert_eq!(machine.step(0), Ok(None));
    assert_eq!(machine.step(u32::MAX), Ok(None));
    assert_eq!(machine.step(0), Ok(None));
    assert_eq!(machine.p(), 4);
}

#[test]
fn input_overwrites_the_current_cell() {
    let mut machine = machine_with("+++,");
    for _ in 0..3 {
        assert_eq!(machine.step(99), Ok(None));
    }
    assert_eq!(machine.mem(), &[3]);
    assert_eq!(machine.step(42), Ok(None));
    assert_eq!(machine.mem(), &[42]);
    assert_eq!(machine.p(), 4);
}

#[test]
fn only_input_uses_the_value_handed_to_a_step() {
    let mut machine = machine_with("+>-.<");
    while !machine.halted() {
        let _ = machine.step(7);
    }
    assert_eq!(machine.mem(), &[1, u32::MAX]);
}

#[test]
fn awaits_input_tells_when_the_next_opcode_reads() {
    let mut machine = machine_with("+,");
    assert!(!machine.awaits_input());
    assert_eq!(machine.step(0), Ok(None));
    assert!(machine.awaits_input());
    assert_eq!(machine.step(5), Ok(None));
    assert!(!machine.awaits_input());
    assert!(machine.halted());
}

#[test]
fn forward_jump_on_zero_lands_past_the_matching_bracket() {
    let mut machine = machine_with("[+[-]+]-");
    assert_eq!(machine.step(0), Ok(None));
    assert_eq!(machine.p(), 7);
    assert_eq!(machine.mem(), &[0]);
    assert_eq!(machine.m(), 0);
}

#[test]
fn forward_jump_on_nonzero_falls_through() {
    let mut machine = machine_with("+[-]");
    assert_eq!(machine.step(0), Ok(None));
    assert_eq!(machine.step(0), Ok(None));
    assert_eq!(machine.p(), 2);
    assert_eq!(machine.mem(), &[1]);
}

#[test]
fn forward_jump_on_nonzero_falls_through_even_if_unmatched() {
    let mut machine = machine_with("+[");
    assert_eq!(machine.step(0), Ok(None));
    assert_eq!(machine.step(0), Ok(None));
    assert_eq!(machine.p(), 2);
    assert!(machine.halted());
}

#[test]
fn backward_jump_on_nonzero_lands_past_the_matching_bracket() {
    let mut machine = machine_with("+[[-]+]");
    assert_eq!(machine.step(0), Ok(None));
    assert_eq!(machine.step(0), Ok(None));
    assert_eq!(machine.step(0), Ok(None));
    assert_eq!(machine.step(0), Ok(None));
    assert_eq!(machine.mem(), &[0]);
    assert_eq!(machine.p(), 4);
    assert_eq!(machine.step(0), Ok(None));
    assert_eq!(machine.p(), 5);
    assert_eq!(machine.step(0), Ok(None));
    assert_eq!(machine.mem(), &[1]);
    assert_eq!(machine.p(), 6);
    assert_eq!(machine.step(0), Ok(None));
    assert_eq!(machine.p(), 2);
}

#[test]
fn backward_jump_on_zero_falls_through() {
    let mut machine = machine_with("]");
    assert_eq!(machine.step(0), Ok(None));
    assert_eq!(machine.p(), 1);
    assert!(machine.halted());
}

#[test]
fn unmatched_forward_jump_on_zero_is_a_syntax_error() {
    let mut machine = machine_with("[");
    assert_eq!(machine.step(0), Err(MachineError::SyntaxError));
    assert_eq!(machine.mem(), &[0]);
    assert_eq!(machine.m(), 0);
    assert_eq!(machine.p(), 0);
}

#[test]
fn unmatched_forward_jump_stops_on_the_last_opcode() {
    let mut machine = machine_with("[+[-]>");
    assert_eq!(machine.step(0), Err(MachineError::SyntaxError));
    assert_eq!(machine.p(), 5);
    assert_eq!(machine.mem(), &[0]);
    assert_eq!(machine.m(), 0);
}

#[test]
fn unmatched_backward_jump_on_nonzero_is_a_syntax_error() {
    let mut machine = machine_with("+]");
    assert_eq!(machine.step(0), Ok(None));
    assert_eq!(machine.step(0), Err(MachineError::SyntaxError));
    assert_eq!(machine.mem(), &[1]);
    assert_eq!(machine.m(), 0);
    assert_eq!(machine.p(), 0);
}

#[test]
fn unmatched_backward_jump_stops_on_the_first_opcode() {
    let mut machine = machine_with("+>+[-]<]");
    for _ in 0..7 {
        assert_eq!(machine.step(0), Ok(None));
    }
    assert_eq!(machine.p(), 7);
    assert_eq!(machine.mem(), &[1, 0]);
    assert_eq!(machine.step(0), Err(MachineError::SyntaxError));
    assert_eq!(machine.p(), 0);
    assert_eq!(machine.mem(), &[1, 0]);
    assert_eq!(machine.m(), 0);
}

#[test]
fn data_pointer_stays_on_the_tape_through_every_step() {
    let mut machine = machine_with("+>>+<[>]<<<");
    while !machine.halted() {
        let result = machine.step(0);
        assert!(machine.mem().len() >= 1);
        assert!(machine.m() < machine.mem().len());
        assert!(machine.p() <= machine.program().len());
        if result.is_err() {
            break;
        }
    }
    assert_eq!(machine.m(), 0);
    assert_eq!(machine.mem(), &[1, 0, 1]);
}

#[test]
fn errors_print_their_names() {
    assert_eq!(
        format!("{:?}", MachineError::AddressBelowZero),
        "AddressBelowZero"
    );
    assert_eq!(format!("{:?}", MachineError::SyntaxError), "SyntaxError");
}
