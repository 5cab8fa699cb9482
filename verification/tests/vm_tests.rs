use midnight_ledger::vm::{
    run_program, run_program_step_limited, step, Key, Op, Outside, StackValue, ValueStrength,
    VmError, VmState, VmValue,
};

fn int_cell(x: u64) -> StackValue {
    let mut bytes = Vec::new();
    let mut y = x;
    while y > 0 {
        bytes.push((y % 256) as u8);
        y /= 256;
    }
    StackValue::Cell(vec![bytes])
}

fn strong(v: StackValue) -> VmValue {
    VmValue { strength: ValueStrength::Strong, value: v }
}

fn outs(n: usize) -> Vec<Outside> {
    (0..n)
        .map(|_| Outside { top_size: 8, second_size: 8, root: vec![7; 32] })
        .collect()
}

fn push(v: StackValue) -> Op {
    Op::Push { storage: true, value: v }
}

#[test]
fn vm_adds_and_compares() {
    let program = vec![push(int_cell(40)), push(int_cell(2)), Op::Add, Op::Dup { n: 0 }, push(int_cell(50)), Op::Lt];
    let res = run_program(Vec::new(), &program, &outs(program.len())).unwrap();
    assert_eq!(res.stack.len(), 2);
    assert_eq!(res.stack[0], strong(int_cell(42)));
    assert_eq!(res.stack[1], strong(int_cell(1)));
}

#[test]
fn vm_subtracts_second_minus_top() {
    let program = vec![push(int_cell(10)), push(int_cell(3)), Op::Sub];
    let res = run_program(Vec::new(), &program, &outs(3)).unwrap();
    assert_eq!(res.stack, vec![strong(int_cell(7))]);
    let under = vec![push(int_cell(3)), push(int_cell(10)), Op::Sub];
    assert_eq!(run_program(Vec::new(), &under, &outs(3)).err(), Some(VmError::ArithmeticOverflow));
}

#[test]
fn vm_branch_skips_on_true() {
    let program = vec![push(int_cell(1)), Op::Branch { skip: 1 }, push(int_cell(5)), push(int_cell(6))];
    let res = run_program(Vec::new(), &program, &outs(4)).unwrap();
    assert_eq!(res.stack, vec![strong(int_cell(6))]);
    let program = vec![push(int_cell(0)), Op::Branch { skip: 1 }, push(int_cell(5)), push(int_cell(6))];
    let res = run_program(Vec::new(), &program, &outs(4)).unwrap();
    assert_eq!(res.stack, vec![strong(int_cell(5)), strong(int_cell(6))]);
}

#[test]
fn vm_jump_past_end_is_refused() {
    let program = vec![Op::Jmp { skip: 1 }];
    assert_eq!(run_program(Vec::new(), &program, &outs(1)).err(), Some(VmError::RanPastProgramEnd));
}

#[test]
fn vm_runs_off_stack() {
    let program = vec![push(int_cell(1)), Op::Add];
    assert_eq!(run_program(Vec::new(), &program, &outs(2)).err(), Some(VmError::RanOffStack));
}

#[test]
fn vm_type_error_on_non_cell() {
    let program = vec![push(StackValue::Null), push(int_cell(1)), Op::Add];
    assert_eq!(run_program(Vec::new(), &program, &outs(3)).err(), Some(VmError::TypeError));
}

#[test]
fn vm_map_insert_lookup_and_remove() {
    let program = vec![
        push(StackValue::Mapping(Vec::new())),
        push(int_cell(7)),
        push(int_cell(99)),
        Op::Ins { cached: false, n: 1 },
        Op::Dup { n: 0 },
        Op::Idx { cached: false, push_path: false, path: vec![Key::Value(vec![vec![7]])] },
        Op::Swap { n: 0 },
        Op::Dup { n: 0 },
        push(int_cell(7)),
        Op::Member,
        Op::Swap { n: 0 },
        push(int_cell(7)),
        Op::Rem { cached: false },
        Op::Size,
    ];
    let res = run_program(Vec::new(), &program, &outs(program.len())).unwrap();
    assert_eq!(res.stack, vec![strong(int_cell(99)), strong(int_cell(1)), strong(int_cell(0))]);
}

#[test]
fn vm_new_array_type_and_size() {
    let program = vec![push(int_cell(3 + 8 * 2)), Op::New, Op::Dup { n: 0 }, Op::Type, Op::Swap { n: 0 }, Op::Size];
    let res = run_program(Vec::new(), &program, &outs(program.len())).unwrap();
    assert_eq!(res.stack, vec![strong(int_cell(19)), strong(int_cell(2))]);
    let too_long = vec![push(int_cell(3 + 8 * 17)), Op::New];
    assert_eq!(run_program(Vec::new(), &too_long, &outs(2)).err(), Some(VmError::InvalidArgs));
}

#[test]
fn vm_idx_reads_array_and_tree() {
    let arr = StackValue::Array(vec![int_cell(4), int_cell(5)]);
    let program = vec![push(arr), push(int_cell(1)), Op::Idx { cached: false, push_path: false, path: vec![Key::Stack] }];
    let res = run_program(Vec::new(), &program, &outs(3)).unwrap();
    assert_eq!(res.stack, vec![strong(int_cell(5))]);
    let tree = StackValue::MerkleTree(2, vec![(3, vec![9, 9])]);
    let program = vec![push(tree), Op::Idx { cached: false, push_path: true, path: vec![Key::Value(vec![vec![3]])] }];
    let res = run_program(Vec::new(), &program, &outs(2)).unwrap();
    assert_eq!(res.stack.len(), 3);
    assert_eq!(res.stack[2], strong(StackValue::Cell(vec![vec![9, 9]])));
    let program = vec![push(StackValue::MerkleTree(2, Vec::new())), Op::Idx { cached: false, push_path: false, path: vec![Key::Value(vec![vec![4]])] }];
    assert_eq!(run_program(Vec::new(), &program, &outs(2)).err(), Some(VmError::MissingKey));
}

#[test]
fn vm_logs_and_reads_events() {
    let program = vec![push(int_cell(3)), Op::Log, push(int_cell(4)), Op::Popeq];
    let res = run_program(Vec::new(), &program, &outs(4)).unwrap();
    assert!(res.stack.is_empty());
    assert_eq!(res.events, vec![int_cell(3), int_cell(4)]);
    let big = vec![Outside { top_size: 1 << 20, second_size: 0, root: Vec::new() }];
    let program = vec![push(int_cell(3)), Op::Log];
    let mut o = outs(1);
    o.extend(big);
    assert_eq!(run_program(Vec::new(), &program, &o).err(), Some(VmError::LogBoundExceeded));
}

#[test]
fn vm_eq_concat_and_root() {
    let program = vec![push(int_cell(5)), push(int_cell(5)), Op::Eq];
    let res = run_program(Vec::new(), &program, &outs(3)).unwrap();
    assert_eq!(res.stack, vec![strong(int_cell(1))]);
    let program = vec![push(int_cell(1)), push(int_cell(2)), Op::Concat { n: 100 }];
    let res = run_program(Vec::new(), &program, &outs(3)).unwrap();
    assert_eq!(res.stack, vec![strong(StackValue::Cell(vec![vec![1], vec![2]]))]);
    let program = vec![push(int_cell(1)), push(int_cell(2)), Op::Concat { n: 10 }];
    assert_eq!(run_program(Vec::new(), &program, &outs(3)).err(), Some(VmError::BoundsExceeded));
    let program = vec![push(StackValue::MerkleTree(1, Vec::new())), Op::Root];
    let res = run_program(Vec::new(), &program, &outs(2)).unwrap();
    assert_eq!(res.stack, vec![strong(StackValue::Cell(vec![vec![7; 32]]))]);
}

#[test]
fn vm_step_limit_and_single_step() {
    let program = vec![push(int_cell(1)), push(int_cell(2)), push(int_cell(3))];
    let res = run_program_step_limited(Vec::new(), &program, Some(2), &outs(3)).unwrap();
    assert_eq!(res.stack.len(), 2);
    let state = VmState { stack: Vec::new(), keys: Vec::new(), cache: Vec::new(), events: Vec::new(), pc: 0 };
    let next = step(state, &program, &outs(1)[0]).unwrap();
    assert_eq!(next.pc, 1);
    assert_eq!(next.stack, vec![strong(int_cell(1))]);
    let done = VmState { stack: Vec::new(), keys: Vec::new(), cache: Vec::new(), events: Vec::new(), pc: 3 };
    assert_eq!(step(done, &program, &outs(1)[0]).err(), Some(VmError::ProgramEnded));
}

#[test]
fn vm_ins_into_array_keeps_weakness() {
    let arr = VmValue { strength: ValueStrength::Weak, value: StackValue::Array(vec![StackValue::Null, StackValue::Null]) };
    let program = vec![push(int_cell(0)), push(int_cell(8)), Op::Ins { cached: false, n: 1 }];
    let res = run_program(vec![arr], &program, &outs(3)).unwrap();
    assert_eq!(
        res.stack,
        vec![VmValue { strength: ValueStrength::Weak, value: StackValue::Array(vec![int_cell(8), StackValue::Null]) }]
    );
}

fn stored_map() -> VmValue {
    strong(StackValue::Mapping(vec![(vec![vec![7]], int_cell(99))]))
}

#[test]
fn vm_cached_reads_need_a_prior_read() {
    let key = vec![Key::Value(vec![vec![7]])];
    // a cached read of a strong initial entry that was never read misses
    let cached = vec![Op::Idx { cached: true, push_path: false, path: vec![Key::Value(vec![vec![7]])] }];
    assert_eq!(run_program(vec![stored_map()], &cached, &outs(1)).err(), Some(VmError::CacheMiss));
    // after an uncached read of the same path, the cached read hits
    let program = vec![
        Op::Dup { n: 0 },
        Op::Idx { cached: false, push_path: false, path: key },
        Op::Pop,
        Op::Idx { cached: true, push_path: false, path: vec![Key::Value(vec![vec![7]])] },
    ];
    let res = run_program(vec![stored_map()], &program, &outs(4)).unwrap();
    assert_eq!(res.stack, vec![strong(int_cell(99))]);
    // all of a weak initial entry counts as read
    let weak = VmValue { strength: ValueStrength::Weak, value: stored_map().value };
    let res = run_program(vec![weak], &cached, &outs(1)).unwrap();
    assert_eq!(res.stack, vec![VmValue { strength: ValueStrength::Weak, value: int_cell(99) }]);
}

#[test]
fn vm_cached_writes_and_removals() {
    // a cached write into a map that was not read misses
    let write = vec![push(int_cell(7)), push(int_cell(1)), Op::Ins { cached: true, n: 1 }];
    assert_eq!(run_program(vec![stored_map()], &write, &outs(3)).err(), Some(VmError::CacheMiss));
    // a cached write into an array needs no prior read
    let arr = strong(StackValue::Array(vec![StackValue::Null]));
    let write = vec![push(int_cell(0)), push(int_cell(1)), Op::Ins { cached: true, n: 1 }];
    let res = run_program(vec![arr], &write, &outs(3)).unwrap();
    assert_eq!(res.stack, vec![strong(StackValue::Array(vec![int_cell(1)]))]);
    // a cached removal of what was not read misses; uncached it succeeds
    let rem = vec![push(int_cell(7)), Op::Rem { cached: true }];
    assert_eq!(run_program(vec![stored_map()], &rem, &outs(2)).err(), Some(VmError::CacheMiss));
    let rem = vec![push(int_cell(7)), Op::Rem { cached: false }, Op::Size];
    let res = run_program(vec![stored_map()], &rem, &outs(3)).unwrap();
    assert_eq!(res.stack, vec![strong(int_cell(0))]);
}

#[test]
fn vm_control_moves_forward() {
    // each successful step moves past the instruction it ran
    let program = vec![push(int_cell(1)), Op::Branch { skip: 1 }, Op::Pop, push(int_cell(2))];
    let mut state = VmState { stack: Vec::new(), keys: Vec::new(), cache: Vec::new(), events: Vec::new(), pc: 0 };
    let mut pcs = vec![];
    while state.pc < program.len() {
        let before = state.pc;
        state = step(state, &program, &outs(1)[0]).unwrap();
        assert!(state.pc > before);
        pcs.push(state.pc);
    }
    assert_eq!(pcs, vec![1, 3, 4]);
}
