use lib::machine::cpu::{Arithmetic, Comparison, Cpu, Op, Request, FALSE_BITS, TRUE_BITS};

fn float(v: f64) -> u64 {
    v.to_bits()
}

fn run_all(cpu: &mut Cpu) -> Vec<Request> {
    let mut requests = Vec::new();
    while !cpu.is_halted() {
        assert!(cpu.can_run());
        requests.push(cpu.run());
    }
    requests
}

#[test]
fn empty_code_halts_at_once() {
    let mut cpu = Cpu::new(Vec::new());
    assert!(!cpu.is_halted());
    assert!(cpu.can_run());
    assert_eq!(cpu.run(), Request::Halt);
    assert!(cpu.is_halted());
}

#[test]
fn arithmetic_is_requested_with_both_operands() {
    let code = vec![Op::PushF(float(2.0)), Op::PushF(float(3.0)), Op::Add, Op::Print];
    let mut cpu = Cpu::new(code);
    assert_eq!(cpu.run(), Request::Proceed);
    assert_eq!(cpu.run(), Request::Proceed);
    assert_eq!(cpu.run(), Request::Arithmetic(Arithmetic::Add, float(2.0), float(3.0)));
    cpu.complete(float(5.0));
    assert_eq!(cpu.run(), Request::Print(float(5.0)));
    assert_eq!(cpu.run(), Request::Halt);
}

#[test]
fn comparison_pushes_one_or_zero() {
    let code = vec![Op::PushF(float(1.0)), Op::PushF(float(4.0)), Op::Lt, Op::Print];
    let mut cpu = Cpu::new(code.clone());
    cpu.run();
    cpu.run();
    assert_eq!(cpu.run(), Request::Compare(Comparison::Less, float(1.0), float(4.0)));
    cpu.complete_comparison(true);
    assert_eq!(cpu.run(), Request::Print(TRUE_BITS));
    assert_eq!(TRUE_BITS, float(1.0));

    let mut cpu = Cpu::new(code);
    cpu.run();
    cpu.run();
    cpu.run();
    cpu.complete_comparison(false);
    assert_eq!(cpu.run(), Request::Print(FALSE_BITS));
    assert_eq!(FALSE_BITS, float(0.0));
}

#[test]
fn return_resumes_after_the_call() {
    let code = vec![
        Op::PushF(7),
        Op::Call("f".to_string()),
        Op::Print,
        Op::Bra(2),
        Op::Label("f".to_string()),
        Op::Ret,
    ];
    let mut cpu = Cpu::new(code);
    let requests = run_all(&mut cpu);
    assert_eq!(
        requests,
        vec![
            Request::Proceed,
            Request::Proceed,
            Request::Proceed,
            Request::Proceed,
            Request::Print(7),
            Request::Proceed,
            Request::Halt,
        ]
    );
}

#[test]
fn call_jumps_to_the_last_label_of_its_name() {
    let code = vec![
        Op::Call("f".to_string()),
        Op::Label("f".to_string()),
        Op::PushF(1),
        Op::Print,
        Op::Label("f".to_string()),
        Op::PushF(2),
        Op::Print,
    ];
    let mut cpu = Cpu::new(code);
    let requests = run_all(&mut cpu);
    assert_eq!(
        requests,
        vec![
            Request::Proceed,
            Request::Proceed,
            Request::Proceed,
            Request::Print(2),
            Request::Halt,
        ]
    );
}

#[test]
fn call_of_an_unknown_label_ends_the_program() {
    let code = vec![Op::Call("missing".to_string()), Op::PushF(1), Op::Print];
    let mut cpu = Cpu::new(code);
    assert_eq!(run_all(&mut cpu), vec![Request::Proceed, Request::Halt]);
}

#[test]
fn branch_if_false_skips_on_zero_only() {
    let code = vec![
        Op::PushF(FALSE_BITS),
        Op::Brf(1),
        Op::PushF(9),
        Op::PushF(4),
        Op::Print,
        Op::PushF(TRUE_BITS),
        Op::Brf(1),
        Op::PushF(6),
        Op::Print,
    ];
    let mut cpu = Cpu::new(code);
    let prints: Vec<Request> = run_all(&mut cpu)
        .into_iter()
        .filter(|r| matches!(r, Request::Print(_)))
        .collect();
    assert_eq!(prints, vec![Request::Print(4), Request::Print(6)]);
}

#[test]
fn globals_and_locals_are_stack_cells() {
    let code = vec![
        Op::Ajs(3),
        Op::PushF(5),
        Op::StoreG(1),
        Op::Ajs(-1),
        Op::LoadG(1),
        Op::Print,
        Op::LoadL(1),
        Op::Print,
        Op::PushF(8),
        Op::StoreL(2),
        Op::LoadG(2),
        Op::Print,
    ];
    let mut cpu = Cpu::new(code);
    let prints: Vec<Request> = run_all(&mut cpu)
        .into_iter()
        .filter(|r| matches!(r, Request::Print(_)))
        .collect();
    assert_eq!(prints, vec![Request::Print(5), Request::Print(5), Request::Print(8)]);
}

#[test]
fn return_register_carries_a_value() {
    let code = vec![Op::PushF(3), Op::StoreRR, Op::LoadRR, Op::LoadRR, Op::Print, Op::Print];
    let mut cpu = Cpu::new(code);
    let prints: Vec<Request> = run_all(&mut cpu)
        .into_iter()
        .filter(|r| matches!(r, Request::Print(_)))
        .collect();
    assert_eq!(prints, vec![Request::Print(3), Request::Print(3)]);
}

#[test]
fn moves_and_sine_are_requested() {
    let code = vec![
        Op::PushF(10),
        Op::Movf,
        Op::PushF(20),
        Op::Movl,
        Op::PushF(30),
        Op::Movr,
        Op::PushF(40),
        Op::Sin,
    ];
    let mut cpu = Cpu::new(code);
    let requests: Vec<Request> = run_all(&mut cpu)
        .into_iter()
        .filter(|r| *r != Request::Proceed)
        .collect();
    assert_eq!(
        requests,
        vec![
            Request::Forward(10),
            Request::TurnLeft(20),
            Request::TurnRight(30),
            Request::Sine(40),
            Request::Halt,
        ]
    );
}

#[test]
fn unimplemented_and_faulting_steps_cannot_run() {
    let mut cpu = Cpu::new(vec![Op::PushF(1), Op::PushF(1), Op::Pow]);
    cpu.run();
    cpu.run();
    assert!(!cpu.can_run());

    assert!(!Cpu::new(vec![Op::Gte]).can_run());
    assert!(!Cpu::new(vec![Op::Goto("x".to_string())]).can_run());
    assert!(!Cpu::new(vec![Op::Add]).can_run());
    assert!(!Cpu::new(vec![Op::Ret]).can_run());
    assert!(!Cpu::new(vec![Op::LoadG(-1)]).can_run());
    assert!(!Cpu::new(vec![Op::LoadG(4096)]).can_run());
    assert!(!Cpu::new(vec![Op::StoreG(0)]).can_run());
}

#[test]
fn stack_adjustment_may_leave_the_stack() {
    let mut cpu = Cpu::new(vec![Op::Ajs(-1), Op::PushF(1)]);
    assert!(cpu.can_run());
    assert_eq!(cpu.run(), Request::Proceed);
    assert!(!cpu.can_run());

    let mut cpu = Cpu::new(vec![Op::Ajs(4096), Op::PushF(1)]);
    cpu.run();
    assert!(!cpu.can_run());
}

#[test]
fn halting_is_absorbing() {
    let mut cpu = Cpu::new(vec![Op::PushF(1)]);
    assert_eq!(cpu.run(), Request::Proceed);
    assert_eq!(cpu.run(), Request::Halt);
    assert!(cpu.is_halted());
    assert!(cpu.can_run());
    assert_eq!(cpu.run(), Request::Halt);
    assert!(cpu.is_halted());
}
