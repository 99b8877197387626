use tapevm::command::Command;
use tapevm::console::{Input, Output, Request};
use tapevm::engine::Core;
use tapevm::error::Error;
use tapevm::machine::Status;
use tapevm::program::parse_commands;

fn prog(text: &str) -> Vec<Command> {
    parse_commands(text.to_string()).unwrap()
}

/// A machine with one zero cell under the data pointer.
fn primed() -> Core {
    let mut core = Core::new();
    let r = core.run(prog("xiangling hutao"), &Vec::new(), 10);
    assert_eq!(r.status, Status::Halted);
    assert_eq!(core.get_value(), Ok(0));
    assert_eq!(core.mem_p(), 0);
    core
}

#[test]
fn new_machine_is_empty() {
    let core = Core::new();
    assert_eq!(core.mem().len(), 0);
    assert_eq!(core.mem_p(), 0);
    assert_eq!(core.cmd_p(), 0);
    assert_eq!(core.get_reg(), None);
    assert_eq!(core.commands().len(), 0);
    assert!(core.halted());
    assert_eq!(core.get_value(), Err(Error::Lookup));
    assert_eq!(core.get_cmd(), Err(Error::Lookup));
}

#[test]
fn moves_right_grow_the_tape() {
    for k in 1..20usize {
        let mut core = Core::new();
        let r = core.run(vec![Command::XiangLing; k], &Vec::new(), k);
        assert_eq!(r.status, Status::Halted);
        assert!(r.output.is_empty());
        assert_eq!(r.consumed, 0);
        assert_eq!(core.mem(), &vec![0; k + 1]);
        assert_eq!(core.mem_p(), k);
        assert_eq!(core.cmd_p(), k);
    }
}

#[test]
fn no_move_leaves_the_tape_empty() {
    let mut core = Core::new();
    let r = core.run(Vec::new(), &Vec::new(), 5);
    assert_eq!(r.status, Status::Halted);
    assert_eq!(core.mem().len(), 0);
    assert_eq!(core.mem_p(), 0);
}

#[test]
fn forward_p_appends_one_cell_at_the_end() {
    let mut core = primed();
    assert_eq!(core.mem(), &vec![0, 0]);
    core.forward_p();
    assert_eq!(core.mem(), &vec![0, 0]);
    assert_eq!(core.mem_p(), 1);
    core.forward_p();
    assert_eq!(core.mem(), &vec![0, 0, 0]);
    assert_eq!(core.mem_p(), 2);
    core.backward_p();
    core.backward_p();
    core.forward_p();
    assert_eq!(core.mem(), &vec![0, 0, 0]);
    assert_eq!(core.mem_p(), 1);
}

#[test]
fn move_left_at_zero_changes_nothing() {
    let mut core = primed();
    core.set_value(9).unwrap();
    core.set_reg(4);
    let tape = core.mem().clone();
    core.backward_p();
    assert_eq!(core.mem(), &tape);
    assert_eq!(core.mem_p(), 0);
    assert_eq!(core.get_reg(), Some(4));
    core.backward_p();
    assert_eq!(core.mem(), &tape);
    assert_eq!(core.mem_p(), 0);

    let r = core.run(prog("hutao hutao"), &Vec::new(), 10);
    assert_eq!(r.status, Status::Halted);
    assert_eq!(core.cmd_p(), 2);
    assert_eq!(core.mem(), &tape);
    assert_eq!(core.mem_p(), 0);
    assert_eq!(core.get_reg(), Some(4));
}

#[test]
fn move_left_on_the_empty_tape() {
    let mut core = Core::new();
    let r = core.run(prog("hutao"), &Vec::new(), 10);
    assert_eq!(r.status, Status::Halted);
    assert_eq!(core.mem().len(), 0);
    assert_eq!(core.mem_p(), 0);
    assert_eq!(core.cmd_p(), 1);
}

#[test]
fn inc_then_dec_restores_the_cell() {
    let mut core = primed();
    core.set_value(41).unwrap();
    core.increase().unwrap();
    assert_eq!(core.get_value(), Ok(42));
    core.decrease().unwrap();
    assert_eq!(core.get_value(), Ok(41));

    let r = core.run(prog("shogun yelan"), &Vec::new(), 10);
    assert_eq!(r.status, Status::Halted);
    assert_eq!(core.get_value(), Ok(41));
    assert_eq!(core.cmd_p(), 2);
}

#[test]
fn inc_and_dec_wrap_round() {
    let mut core = primed();
    core.set_value(i32::MAX).unwrap();
    core.increase().unwrap();
    assert_eq!(core.get_value(), Ok(i32::MIN));
    core.decrease().unwrap();
    assert_eq!(core.get_value(), Ok(i32::MAX));
    core.set_value(i32::MIN).unwrap();
    core.decrease().unwrap();
    assert_eq!(core.get_value(), Ok(i32::MAX));
}

#[test]
fn cell_primitives_fail_without_a_cell() {
    let mut core = Core::new();
    assert_eq!(core.set_value(1), Err(Error::Lookup));
    assert_eq!(core.increase(), Err(Error::Lookup));
    assert_eq!(core.decrease(), Err(Error::Lookup));
    assert_eq!(core.mem().len(), 0);
    for text in ["shogun", "yelan", "yoimiya", "miko", "barbara", "keqing", "ayaka", "ningguang"] {
        let mut core = Core::new();
        let r = core.run(prog(text), &Vec::new(), 10);
        assert_eq!(r.status, Status::Failed(Error::Lookup));
        assert_eq!(core.cmd_p(), 0);
        assert!(r.output.is_empty());
    }
}

#[test]
fn register_alternates() {
    let mut core = primed();
    core.set_value(7).unwrap();
    // Store, move, restore.
    let r = core.run(prog("miko xiangling miko"), &Vec::new(), 10);
    assert_eq!(r.status, Status::Halted);
    assert_eq!(core.mem(), &vec![7, 7]);
    assert_eq!(core.mem_p(), 1);
    assert_eq!(core.get_reg(), None);

    let mut core = primed();
    core.set_value(7).unwrap();
    let r = core.run(prog("miko"), &Vec::new(), 10);
    assert_eq!(r.status, Status::Halted);
    assert_eq!(core.get_value(), Ok(7));
    assert_eq!(core.get_reg(), Some(7));
    let r = core.run(prog("yoimiya miko"), &Vec::new(), 10);
    assert_eq!(r.status, Status::Halted);
    assert_eq!(core.get_value(), Ok(7));
    assert_eq!(core.get_reg(), None);
}

#[test]
fn register_primitives() {
    let mut core = Core::new();
    assert_eq!(core.get_reg(), None);
    core.set_reg(-3);
    assert_eq!(core.get_reg(), Some(-3));
    core.clear_reg();
    assert_eq!(core.get_reg(), None);
}

#[test]
fn scenario_print_two() {
    let mut core = Core::new();
    let r = core.run(prog("xiangling shogun shogun barbara"), &Vec::new(), 100);
    assert_eq!(r.status, Status::Halted);
    assert_eq!(r.output, vec![Output::Int(2)]);
    assert_eq!(r.consumed, 0);
    assert_eq!(core.mem_p(), 1);
    assert_eq!(core.mem(), &vec![0, 2]);
    assert_eq!(core.cmd_p(), 4);
}

#[test]
fn scenario_read_char_into_zero_cell() {
    let mut core = primed();
    let r = core.run(prog("keqing"), &vec![Input::Byte(65)], 100);
    assert_eq!(r.status, Status::Halted);
    assert!(r.output.is_empty());
    assert_eq!(r.consumed, 1);
    assert_eq!(core.get_value(), Ok(65));
    assert_eq!(core.cmd_p(), 1);
}

#[test]
fn io_char_writes_a_nonzero_cell() {
    let mut core = primed();
    core.set_value(65).unwrap();
    let r = core.run(prog("keqing"), &vec![Input::Byte(66)], 100);
    assert_eq!(r.status, Status::Halted);
    assert_eq!(r.output, vec![Output::Char('A')]);
    assert_eq!(r.consumed, 0);
    assert_eq!(core.get_value(), Ok(65));

    // Only the low eight bits count.
    core.set_value(0x141).unwrap();
    let r = core.run(prog("keqing"), &Vec::new(), 100);
    assert_eq!(r.output, vec![Output::Char('A')]);
    core.set_value(-1).unwrap();
    let r = core.run(prog("keqing"), &Vec::new(), 100);
    assert_eq!(r.output, vec![Output::Char('\u{ff}')]);
    core.set_value(256).unwrap();
    let r = core.run(prog("keqing"), &Vec::new(), 100);
    assert_eq!(r.output, vec![Output::Char('\0')]);
}

#[test]
fn io_char_without_input_fails() {
    let mut core = primed();
    let r = core.run(prog("keqing"), &Vec::new(), 100);
    assert_eq!(r.status, Status::Failed(Error::Io));
    assert_eq!(r.consumed, 0);
    assert_eq!(core.get_value(), Ok(0));
    assert_eq!(core.cmd_p(), 0);

    let r = core.run(prog("keqing"), &vec![Input::Line("65".to_string())], 100);
    assert_eq!(r.status, Status::Failed(Error::Io));
    assert_eq!(r.consumed, 1);
}

#[test]
fn scenario_forward_jump_over_lone_close() {
    let mut core = primed();
    let r = core.run(prog("ayaka ao"), &Vec::new(), 100);
    assert_eq!(r.status, Status::Halted);
    assert_eq!(core.cmd_p(), 2);
    assert!(r.output.is_empty());
    assert_eq!(core.mem(), &vec![0, 0]);
    assert_eq!(core.mem_p(), 0);
}

#[test]
fn forward_jump_not_taken_on_nonzero_cell() {
    let mut core = primed();
    core.set_value(1).unwrap();
    core.load(prog("ayaka barbara"));
    assert_eq!(core.step(&Input::Nothing), Ok(Output::Nothing));
    assert_eq!(core.cmd_p(), 1);
    assert_eq!(core.step(&Input::Nothing), Ok(Output::Int(1)));
    assert!(core.halted());
}

#[test]
fn forward_jump_resumes_past_the_match() {
    let mut core = primed();
    // The position after the jump is passed unseen; the close at 2 takes the depth to zero.
    let r = core.run(prog("ayaka shogun ao barbara"), &Vec::new(), 100);
    assert_eq!(r.status, Status::Halted);
    assert_eq!(r.output, vec![Output::Int(0)]);
    assert_eq!(core.cmd_p(), 4);
}

#[test]
fn scenario_indirect_self_reference() {
    let mut core = primed();
    core.set_value(3).unwrap();
    let r = core.run(prog("ningguang barbara"), &Vec::new(), 100);
    assert_eq!(r.status, Status::Failed(Error::Indirection));
    assert!(r.output.is_empty());
    assert_eq!(core.cmd_p(), 0);
    assert_eq!(core.get_value(), Ok(3));
}

#[test]
fn indirect_self_reference_after_output() {
    let mut core = Core::new();
    let r = core.run(
        prog("xiangling shogun shogun shogun barbara ningguang barbara"),
        &Vec::new(),
        100,
    );
    assert_eq!(r.status, Status::Failed(Error::Indirection));
    assert_eq!(r.output, vec![Output::Int(3)]);
    assert_eq!(core.cmd_p(), 5);
}

#[test]
fn indirect_execution_advances_twice() {
    let mut core = primed();
    core.set_value(6).unwrap();
    core.load(prog("ningguang barbara barbara"));
    assert_eq!(core.step(&Input::Nothing), Ok(Output::Nothing));
    assert_eq!(core.get_value(), Ok(7));
    assert_eq!(core.cmd_p(), 2);

    core.set_value(10).unwrap();
    core.load(prog("ningguang"));
    assert_eq!(core.step(&Input::Nothing), Ok(Output::Int(10)));
    assert_eq!(core.cmd_p(), 2);
    assert!(core.halted());
}

#[test]
fn indirect_execution_of_bad_code() {
    let mut core = primed();
    core.set_value(12).unwrap();
    let r = core.run(prog("ningguang"), &Vec::new(), 100);
    assert_eq!(r.status, Status::Failed(Error::Decode));
    core.set_value(-1).unwrap();
    assert_eq!(core.get_cmd(), Err(Error::Decode));
    core.set_value(11).unwrap();
    assert_eq!(core.get_cmd(), Ok(Command::Klee));
}

#[test]
fn indirect_execution_reads() {
    let mut core = primed();
    core.set_value(11).unwrap();
    core.load(prog("ningguang"));
    assert_eq!(core.request(), Request::Line);
    assert_eq!(core.step(&Input::Line(" -12\n".to_string())), Ok(Output::Nothing));
    assert_eq!(core.get_value(), Ok(-12));
    assert_eq!(core.cmd_p(), 2);
}

#[test]
fn back_jump_at_zero_passes() {
    let mut core = primed();
    let r = core.run(prog("ao barbara"), &Vec::new(), 100);
    assert_eq!(r.status, Status::Halted);
    assert_eq!(r.output, vec![Output::Int(0)]);
    assert_eq!(core.cmd_p(), 2);
}

#[test]
fn back_jump_without_match_passes() {
    let mut core = primed();
    // The open at 0 stands one step back and is not looked at.
    let r = core.run(prog("ayaka ao barbara"), &Vec::new(), 100);
    assert_eq!(r.status, Status::Halted);
    // The cell is zero: the forward jump runs to the end.
    assert_eq!(core.cmd_p(), 3);
    assert!(r.output.is_empty());

    core.set_value(5).unwrap();
    let r = core.run(prog("ayaka ao barbara"), &Vec::new(), 100);
    assert_eq!(r.status, Status::Halted);
    assert_eq!(r.output, vec![Output::Int(5)]);
    assert_eq!(core.cmd_p(), 3);

    let r = core.run(prog("shogun shogun ao barbara"), &Vec::new(), 100);
    assert_eq!(r.status, Status::Halted);
    assert_eq!(r.output, vec![Output::Int(7)]);
}

#[test]
fn back_jump_runs_the_named_instruction() {
    let mut core = primed();
    core.set_value(6).unwrap();
    core.load(prog("ayaka shogun ao"));
    assert_eq!(core.step(&Input::Nothing), Ok(Output::Nothing));
    assert_eq!(core.step(&Input::Nothing), Ok(Output::Nothing));
    assert_eq!(core.get_value(), Ok(7));
    assert_eq!(core.cmd_p(), 2);
    // The match is position 0; tape cell 0 holds 7, a forward jump, run at position 0
    // on a non-zero cell.
    assert_eq!(core.request(), Request::Nothing);
    assert_eq!(core.step(&Input::Nothing), Ok(Output::Nothing));
    assert_eq!(core.cmd_p(), 1);
    assert_eq!(core.get_value(), Ok(7));
    // Now 8: a reset.
    assert_eq!(core.step(&Input::Nothing), Ok(Output::Nothing));
    assert_eq!(core.step(&Input::Nothing), Ok(Output::Nothing));
    assert_eq!(core.get_value(), Ok(0));
    assert_eq!(core.cmd_p(), 1);
    // Now 1, then cell 0 names a move to the left.
    assert_eq!(core.step(&Input::Nothing), Ok(Output::Nothing));
    assert_eq!(core.step(&Input::Nothing), Ok(Output::Nothing));
    assert_eq!(core.get_value(), Ok(1));
    assert_eq!(core.mem_p(), 0);
    assert_eq!(core.cmd_p(), 1);
}

#[test]
fn back_jump_named_instruction_fails() {
    // The match is position 0 and the tape has no cell 0.
    let mut core = Core::new();
    core.load(prog("ayaka hutao ao"));
    assert_eq!(core.handle_cmd(&Command::HuTao, &Input::Nothing), Ok(Output::Nothing));
    assert_eq!(core.handle_cmd(&Command::HuTao, &Input::Nothing), Ok(Output::Nothing));
    assert_eq!(core.cmd_p(), 2);
    assert_eq!(core.step(&Input::Nothing), Err(Error::Lookup));
    assert_eq!(core.cmd_p(), 2);

    // Cell 0 names no instruction.
    let mut core = primed();
    core.set_value(99).unwrap();
    core.load(prog("ayaka hutao ao"));
    assert_eq!(core.step(&Input::Nothing), Ok(Output::Nothing));
    assert_eq!(core.step(&Input::Nothing), Ok(Output::Nothing));
    assert_eq!(core.step(&Input::Nothing), Err(Error::Decode));
    assert_eq!(core.cmd_p(), 2);

    // Cell 0 names indirect execution, which finds itself named again.
    core.set_value(3).unwrap();
    assert_eq!(core.step(&Input::Nothing), Err(Error::Indirection));
    assert_eq!(core.cmd_p(), 2);
    assert_eq!(core.get_value(), Ok(3));
}

#[test]
fn run_stops_when_fuel_is_used_up() {
    let mut core = primed();
    core.set_value(2).unwrap();
    // Cell 0 names a move to the right: every back jump moves on, for ever.
    let r = core.run(prog("ayaka hutao ao"), &Vec::new(), 50);
    assert_eq!(r.status, Status::Paused);
    assert!(!core.halted());
    assert!(r.output.is_empty());

    let mut core = Core::new();
    let r = core.run(prog("xiangling xiangling"), &Vec::new(), 1);
    assert_eq!(r.status, Status::Paused);
    assert_eq!(core.cmd_p(), 1);
    let r = core.run(prog("xiangling xiangling"), &Vec::new(), 0);
    assert_eq!(r.status, Status::Paused);
    assert_eq!(core.cmd_p(), 0);
}

#[test]
fn reset_zeroes_the_cell() {
    let mut core = primed();
    core.set_value(77).unwrap();
    let r = core.run(prog("yoimiya barbara"), &Vec::new(), 10);
    assert_eq!(r.output, vec![Output::Int(0)]);
    assert_eq!(core.get_value(), Ok(0));
}

#[test]
fn print_int_writes_the_cell() {
    let mut core = primed();
    core.set_value(-2147483648).unwrap();
    let r = core.run(prog("barbara yelan barbara"), &Vec::new(), 10);
    assert_eq!(r.output, vec![Output::Int(-2147483648), Output::Int(2147483647)]);
}

#[test]
fn read_int_stores_the_number() {
    let mut core = primed();
    let inputs = vec![Input::Line("123\n".to_string()), Input::Line("  -45  \r\n".to_string())];
    let r = core.run(prog("klee barbara xiangling klee barbara"), &inputs, 10);
    assert_eq!(r.status, Status::Halted);
    assert_eq!(r.output, vec![Output::Int(123), Output::Int(-45)]);
    assert_eq!(r.consumed, 2);
    assert_eq!(core.mem(), &vec![123, -45]);
}

#[test]
fn read_int_rejects_what_is_no_integer() {
    for line in ["", "\n", "abc\n", "12a\n", "1 2\n", "-\n", "+\n", "2147483648\n", "0x10\n", "1.5\n"] {
        let mut core = primed();
        core.set_value(9).unwrap();
        let r = core.run(prog("klee"), &vec![Input::Line(line.to_string())], 10);
        assert_eq!(r.status, Status::Failed(Error::Parse), "line {:?}", line);
        assert_eq!(r.consumed, 1);
        assert_eq!(core.get_value(), Ok(9));
        assert_eq!(core.cmd_p(), 0);
    }
}

#[test]
fn read_int_errors_in_order() {
    // No line at hand.
    let mut core = primed();
    let r = core.run(prog("klee"), &Vec::new(), 10);
    assert_eq!(r.status, Status::Failed(Error::Io));
    let r = core.run(prog("klee"), &vec![Input::Byte(49)], 10);
    assert_eq!(r.status, Status::Failed(Error::Io));
    let r = core.run(prog("klee"), &vec![Input::Nothing], 10);
    assert_eq!(r.status, Status::Failed(Error::Io));
    // A bad line is found before the missing cell.
    let mut core = Core::new();
    let r = core.run(prog("klee"), &vec![Input::Line("x".to_string())], 10);
    assert_eq!(r.status, Status::Failed(Error::Parse));
    let r = core.run(prog("klee"), &vec![Input::Line("1".to_string())], 10);
    assert_eq!(r.status, Status::Failed(Error::Lookup));
}

#[test]
fn request_tells_what_will_be_read() {
    let mut core = primed();
    core.load(prog("keqing klee barbara"));
    assert_eq!(core.request(), Request::Byte);
    core.set_value(1).unwrap();
    assert_eq!(core.request(), Request::Nothing);
    assert_eq!(core.step(&Input::Nothing), Ok(Output::Char('\u{1}')));
    assert_eq!(core.request(), Request::Line);
    assert_eq!(core.step(&Input::Line("5".to_string())), Ok(Output::Nothing));
    assert_eq!(core.request(), Request::Nothing);

    // Through indirect execution.
    core.set_value(4).unwrap();
    core.load(prog("ningguang"));
    assert_eq!(core.request(), Request::Nothing);
    core.set_value(0).unwrap();
    core.load(prog("xiangling shogun shogun shogun shogun hutao ningguang"));
    for _ in 0..6 {
        core.step(&Input::Nothing).unwrap();
    }
    // Cell 0 is zero and names a back jump: position 6 has no match, nothing is read.
    assert_eq!(core.request(), Request::Nothing);
}

#[test]
fn inputs_are_taken_only_where_wanted() {
    let mut core = primed();
    let inputs = vec![Input::Byte(1), Input::Byte(2), Input::Byte(3)];
    let r = core.run(prog("shogun yelan keqing xiangling keqing barbara"), &inputs, 100);
    assert_eq!(r.status, Status::Halted);
    assert_eq!(r.consumed, 2);
    assert_eq!(core.mem(), &vec![1, 2]);
    assert_eq!(r.output, vec![Output::Int(2)]);
}

#[test]
fn load_keeps_the_data() {
    let mut core = primed();
    core.set_value(5).unwrap();
    core.set_reg(6);
    core.load(prog("barbara"));
    assert_eq!(core.cmd_p(), 0);
    assert_eq!(core.commands(), &vec![Command::Barbara]);
    assert_eq!(core.get_value(), Ok(5));
    assert_eq!(core.get_reg(), Some(6));
    assert!(!core.halted());
}

#[test]
fn resume_takes_a_paused_run_up_again() {
    let text = "keqing barbara xiangling klee barbara shogun barbara";
    let inputs = vec![Input::Byte(7), Input::Line("40\n".to_string())];

    let mut whole = primed();
    let all = whole.run(prog(text), &inputs, 100);
    assert_eq!(all.status, Status::Halted);
    assert_eq!(all.output, vec![Output::Int(7), Output::Int(40), Output::Int(41)]);
    assert_eq!(all.consumed, 2);

    for cut in 0..8usize {
        let mut core = primed();
        let first = core.run(prog(text), &inputs, cut);
        let second = core.resume(&inputs, first.consumed, 100);
        assert_eq!(second.status, Status::Halted);
        let mut output = first.output.clone();
        output.extend(second.output.iter().copied());
        assert_eq!(output, all.output);
        assert_eq!(first.consumed + second.consumed, all.consumed);
        assert_eq!(core.mem(), whole.mem());
        assert_eq!(core.mem_p(), whole.mem_p());
        assert_eq!(core.cmd_p(), whole.cmd_p());
    }
}

#[test]
fn resume_on_a_halted_machine_does_nothing() {
    let mut core = Core::new();
    let r = core.resume(&vec![Input::Byte(1)], 0, 10);
    assert_eq!(r.status, Status::Halted);
    assert_eq!(r.consumed, 0);
    assert!(r.output.is_empty());
    let r = core.resume(&vec![Input::Byte(1)], 1, 10);
    assert_eq!(r.status, Status::Halted);
    assert_eq!(r.consumed, 0);
}

#[test]
fn a_failed_run_leaves_the_machine_before_the_failure() {
    let mut core = primed();
    let r = core.run(prog("shogun xiangling shogun barbara klee barbara"), &vec![Input::Line("no".to_string())], 100);
    assert_eq!(r.status, Status::Failed(Error::Parse));
    assert_eq!(r.output, vec![Output::Int(1)]);
    assert_eq!(r.consumed, 1);
    assert_eq!(core.cmd_p(), 4);
    assert_eq!(core.mem(), &vec![1, 1]);
    assert_eq!(core.mem_p(), 1);
}
