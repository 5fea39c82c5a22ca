use vstd::prelude::*;

verus! {

/// An instruction of the stack machine. Numbers are pushed as the bit
/// patterns of 64-bit floats; addresses and offsets are `i32`.
#[derive(Debug, Clone, PartialEq, Hash)]
pub enum Op {
    Label(String),
    Ajs(i32),
    PushF(u64),
    Goto(String),
    Add,
    Sub,
    Mul,
    Div,
    Pow,
    Lt,
    Gt,
    Lte,
    Gte,
    Eq,
    Neq,
    Sin,
    Cos,
    StoreL(i32),
    LoadL(i32),
    StoreG(i32),
    LoadG(i32),
    Call(String),
    Ret,
    StoreRR,
    LoadRR,
    Brf(i32),
    Bra(i32),
    Print,
    Movf,
    Movl,
    Movr,
}

/// Number of 64-bit cells on the machine's stack.
pub const STACK_SIZE: u64 = 4096;

/// Bit pattern of the float `1.0`, pushed for a comparison that holds.
pub const TRUE_BITS: u64 = 0x3FF0_0000_0000_0000;

/// Bit pattern of the float `0.0`, pushed for a comparison that fails.
pub const FALSE_BITS: u64 = 0;

/// A float operation on the two topmost stack values.
#[derive(Debug, Clone, Copy, PartialEq, Eq, Structural)]
pub enum Arithmetic {
    Add,
    Sub,
    Mul,
    Div,
}

/// A float comparison of the two topmost stack values.
#[derive(Debug, Clone, Copy, PartialEq, Eq, Structural)]
pub enum Comparison {
    Less,
    Greater,
    Equal,
    NotEqual,
}

/// What a step leaves to its caller. The operands have already been popped
/// (the second value from the top first, then the top one); a request that
/// yields a value is answered by pushing it with `complete` or
/// `complete_comparison` before the next step.
#[derive(Debug, Clone, Copy, PartialEq, Eq, Structural)]
pub enum Request {
    /// Nothing is left to do.
    Proceed,
    /// The instruction pointer reached the end of the code.
    Halt,
    Arithmetic(Arithmetic, u64, u64),
    Compare(Comparison, u64, u64),
    /// The sine of an angle in degrees.
    Sine(u64),
    Print(u64),
    Forward(u64),
    TurnLeft(u64),
    TurnRight(u64),
}

/// The machine's state: its code, its stack and its registers.
#[verifier::ext_equal]
pub ghost struct CpuState {
    pub code: Seq<Op>,
    pub halted: bool,
    pub stack: Seq<u64>,
    pub ip: u64,
    pub sp: u64,
    pub fp: u64,
    pub rr: u64,
}

/// The labels of `code` in order, each with its index.
pub open spec fn label_entries(code: Seq<Op>) -> Seq<(Seq<char>, int)>
    decreases code.len(),
{
    if code.len() == 0 {
        Seq::empty()
    } else {
        let rest = label_entries(code.drop_last());
        match code.last() {
            Op::Label(l) => rest.push((l@, code.len() - 1)),
            _ => rest,
        }
    }
}

/// The index of the last entry named `name`.
pub open spec fn last_entry(entries: Seq<(Seq<char>, int)>, name: Seq<char>) -> Option<int>
    decreases entries.len(),
{
    if entries.len() == 0 {
        None
    } else if entries.last().0 == name {
        Some(entries.last().1)
    } else {
        last_entry(entries.drop_last(), name)
    }
}

/// Where a call of `name` jumps: the last label of that name, or the end of
/// the code when there is none.
pub open spec fn label_target(code: Seq<Op>, name: Seq<char>) -> u64 {
    match last_entry(label_entries(code), name) {
        Some(i) => i as u64,
        None => code.len() as u64,
    }
}

/// `s` with `v` pushed.
pub open spec fn pushed(s: CpuState, v: u64) -> CpuState {
    CpuState { stack: s.stack.update(s.sp as int, v), sp: (s.sp + 1) as u64, ..s }
}

/// The topmost stack value.
pub open spec fn top(s: CpuState) -> u64 {
    s.stack[s.sp - 1]
}

/// `s` with its topmost value popped.
pub open spec fn popped(s: CpuState) -> CpuState {
    CpuState { sp: (s.sp - 1) as u64, ..s }
}

/// `s` with its instruction pointer moved past the current instruction.
pub open spec fn advanced(s: CpuState) -> CpuState {
    CpuState { ip: (s.ip + 1) as u64, ..s }
}

/// An `i32` offset added to a register, as the machine computes it: the
/// register taken as an `i32`.
pub open spec fn offset(register: u64, n: i32) -> int {
    (register as i32) + n
}

pub open spec fn fits_i32(x: int) -> bool {
    i32::MIN <= x <= i32::MAX
}

/// A stack address that can be read and written.
pub open spec fn valid_address(a: int) -> bool {
    0 <= a < STACK_SIZE
}

/// The next step can be taken: the instruction exists and is implemented, its
/// arithmetic on addresses does not overflow, and its stack accesses stay on
/// the stack.
pub open spec fn runnable(s: CpuState) -> bool {
    if s.ip == s.code.len() {
        true
    } else if s.ip > s.code.len() {
        false
    } else {
        let t = advanced(s);
        match s.code[s.ip as int] {
            Op::PushF(_) | Op::LoadRR => t.sp < STACK_SIZE,
            Op::Add | Op::Sub | Op::Mul | Op::Div | Op::Lt | Op::Gt | Op::Eq | Op::Neq => 2 <= t.sp
                <= STACK_SIZE,
            Op::Sin | Op::Print | Op::Movf | Op::Movl | Op::Movr | Op::StoreRR => 1 <= t.sp
                <= STACK_SIZE,
            Op::Ajs(n) => fits_i32(offset(t.sp, n)),
            Op::Bra(n) => fits_i32(offset(t.ip, n)),
            Op::Brf(n) => 1 <= t.sp <= STACK_SIZE && (top(t) == 0 ==> fits_i32(offset(t.ip, n))),
            Op::Label(_) => true,
            Op::LoadG(a) => valid_address(a as int) && t.sp < STACK_SIZE,
            Op::StoreG(a) => valid_address(a as int) && 1 <= t.sp <= STACK_SIZE,
            Op::LoadL(a) => fits_i32(offset(t.fp, a)) && valid_address(offset(t.fp, a)) && t.sp
                < STACK_SIZE,
            Op::StoreL(a) => fits_i32(offset(t.fp, a)) && valid_address(offset(t.fp, a)) && 1
                <= t.sp <= STACK_SIZE,
            Op::Call(_) => t.sp + 2 <= STACK_SIZE,
            Op::Ret => 2 <= t.fp <= STACK_SIZE,
            Op::Goto(_) | Op::Pow | Op::Cos | Op::Lte | Op::Gte => false,
        }
    }
}

/// The two topmost values popped: the state after, the second value and the
/// top value.
pub open spec fn operands(t: CpuState) -> (CpuState, u64, u64) {
    (popped(popped(t)), top(popped(t)), top(t))
}

/// One step of the machine: the state after it and what is left to the caller.
pub open spec fn step(s: CpuState) -> (CpuState, Request) {
    if s.ip == s.code.len() {
        (CpuState { halted: true, ..s }, Request::Halt)
    } else {
        let t = advanced(s);
        match s.code[s.ip as int] {
            Op::PushF(f) => (pushed(t, f), Request::Proceed),
            Op::Add => (operands(t).0, Request::Arithmetic(Arithmetic::Add, operands(t).1, operands(t).2)),
            Op::Sub => (operands(t).0, Request::Arithmetic(Arithmetic::Sub, operands(t).1, operands(t).2)),
            Op::Mul => (operands(t).0, Request::Arithmetic(Arithmetic::Mul, operands(t).1, operands(t).2)),
            Op::Div => (operands(t).0, Request::Arithmetic(Arithmetic::Div, operands(t).1, operands(t).2)),
            Op::Lt => (operands(t).0, Request::Compare(Comparison::Less, operands(t).1, operands(t).2)),
            Op::Gt => (operands(t).0, Request::Compare(Comparison::Greater, operands(t).1, operands(t).2)),
            Op::Eq => (operands(t).0, Request::Compare(Comparison::Equal, operands(t).1, operands(t).2)),
            Op::Neq => (operands(t).0, Request::Compare(Comparison::NotEqual, operands(t).1, operands(t).2)),
            Op::Sin => (popped(t), Request::Sine(top(t))),
            Op::Print => (popped(t), Request::Print(top(t))),
            Op::Movf => (popped(t), Request::Forward(top(t))),
            Op::Movl => (popped(t), Request::TurnLeft(top(t))),
            Op::Movr => (popped(t), Request::TurnRight(top(t))),
            Op::Ajs(n) => (CpuState { sp: offset(t.sp, n) as u64, ..t }, Request::Proceed),
            Op::Bra(n) => (CpuState { ip: offset(t.ip, n) as u64, ..t }, Request::Proceed),
            Op::Brf(n) => if top(t) == 0 {
                (CpuState { ip: offset(t.ip, n) as u64, ..popped(t) }, Request::Proceed)
            } else {
                (popped(t), Request::Proceed)
            },
            Op::Label(_) => (t, Request::Proceed),
            Op::LoadG(a) => (pushed(t, t.stack[a as int]), Request::Proceed),
            Op::StoreG(a) => (CpuState { stack: t.stack.update(a as int, top(t)), ..t }, Request::Proceed),
            Op::LoadL(a) => (pushed(t, t.stack[offset(t.fp, a)]), Request::Proceed),
            Op::StoreL(a) => (
                CpuState { stack: t.stack.update(offset(t.fp, a), top(t)), ..t },
                Request::Proceed,
            ),
            Op::Call(l) => {
                let u = pushed(pushed(t, t.ip), t.fp);
                (CpuState { fp: u.sp, ip: label_target(s.code, l@), ..u }, Request::Proceed)
            },
            Op::Ret => {
                let u = CpuState { sp: t.fp, ..t };
                let fp = top(u);
                let w = popped(u);
                (CpuState { fp, ip: top(w), ..popped(w) }, Request::Proceed)
            },
            Op::StoreRR => (CpuState { rr: top(t), ..popped(t) }, Request::Proceed),
            Op::LoadRR => (pushed(t, t.rr), Request::Proceed),
            Op::Goto(_) | Op::Pow | Op::Cos | Op::Lte | Op::Gte => (t, Request::Proceed),
        }
    }
}

/// A machine is marked halted only once its instruction pointer has reached
/// the end of its code.
pub open spec fn halt_consistent(s: CpuState) -> bool {
    s.halted ==> s.ip == s.code.len()
}

/// A stack machine over 64-bit cells. Float instructions are handed to the
/// caller as requests (see [`Request`]); everything else runs here.
pub struct Cpu {
    labels: Vec<(String, u64)>,
    code: Vec<Op>,
    halted: bool,
    stack: Vec<u64>,
    ip: u64,
    sp: u64,
    fp: u64,
    rr: u64,
}

impl View for Cpu {
    type V = CpuState;

    closed spec fn view(&self) -> CpuState {
        CpuState {
            code: self.code@,
            halted: self.halted,
            stack: self.stack@,
            ip: self.ip,
            sp: self.sp,
            fp: self.fp,
            rr: self.rr,
        }
    }
}

/// `labels` lists the labels of `code` with their indices, in order.
pub open spec fn labels_match(labels: Seq<(String, u64)>, code: Seq<Op>) -> bool {
    &&& labels.len() == label_entries(code).len()
    &&& forall|i: int|
        0 <= i < labels.len() ==> (#[trigger] labels[i]).0@ == label_entries(code)[i].0 && labels[i].1
            == label_entries(code)[i].1
}

impl Cpu {
    /// The stack has its full size and the label table matches the code.
    pub closed spec fn wf(&self) -> bool {
        &&& self.stack@.len() == STACK_SIZE
        &&& labels_match(self.labels@, self.code@)
        &&& halt_consistent(self@)
    }

    /// A well-formed machine is halted only at the end of its code.
    pub proof fn lemma_wf_halt_consistent(&self)
        requires
            self.wf(),
        ensures
            halt_consistent(self@),
    {
    }

    /// A machine at the start of `code`, with an empty stack of zeros.
    pub fn new(code: Vec<Op>) -> (cpu: Self)
        ensures
            cpu.wf(),
            cpu@ == (CpuState {
                code: code@,
                halted: false,
                stack: Seq::new(STACK_SIZE as nat, |i: int| 0u64),
                ip: 0,
                sp: 0,
                fp: 0,
                rr: 0,
            }),
    {
        let mut labels: Vec<(String, u64)> = Vec::new();
        let mut i: usize = 0;
        while i < code.len()
            invariant
                i <= code.len(),
                labels_match(labels@, code@.take(i as int)),
            decreases code.len() - i,
        {
            proof {
                let next = code@.take(i + 1);
                assert(next.drop_last() =~= code@.take(i as int));
                assert(next.last() == code@[i as int]);
            }
            match &code[i] {
                Op::Label(l) => {
                    labels.push((l.clone(), i as u64));
                },
                _ => {},
            }
            i += 1;
        }
        assert(code@.take(code.len() as int) =~= code@);
        let stack: Vec<u64> = vec![0u64; STACK_SIZE as usize];
        let cpu = Cpu { labels, code, halted: false, stack, ip: 0, sp: 0, fp: 0, rr: 0 };
        assert(cpu@.stack =~= Seq::new(STACK_SIZE as nat, |i: int| 0u64));
        cpu
    }

    pub fn is_halted(&self) -> (halted: bool)
        ensures
            halted == self@.halted,
    {
        self.halted
    }

    fn push(&mut self, val: u64)
        requires
            old(self).wf(),
            old(self)@.sp < STACK_SIZE,
        ensures
            final(self).wf(),
            final(self)@ == pushed(old(self)@, val),
    {
        let i = self.sp as usize;
        self.stack.set(i, val);
        self.sp = self.sp + 1;
    }

    fn pop(&mut self) -> (val: u64)
        requires
            old(self).wf(),
            1 <= old(self)@.sp <= STACK_SIZE,
        ensures
            final(self).wf(),
            val == top(old(self)@),
            final(self)@ == popped(old(self)@),
    {
        self.sp = self.sp - 1;
        self.stack[self.sp as usize]
    }

    /// Whether `run` can take the next step: see [`runnable`].
    pub fn can_run(&self) -> (ok: bool)
        requires
            self.wf(),
        ensures
            ok == runnable(self@),
    {
        let len = self.code.len() as u64;
        if self.ip == len {
            return true;
        }
        if self.ip > len {
            return false;
        }
        let sp = self.sp;
        let fp = self.fp;
        let next_ip = self.ip + 1;
        match &self.code[self.ip as usize] {
            Op::PushF(_) | Op::LoadRR => sp < STACK_SIZE,
            Op::Add | Op::Sub | Op::Mul | Op::Div | Op::Lt | Op::Gt | Op::Eq | Op::Neq => 2 <= sp && sp
                <= STACK_SIZE,
            Op::Sin | Op::Print | Op::Movf | Op::Movl | Op::Movr | Op::StoreRR => 1 <= sp && sp
                <= STACK_SIZE,
            Op::Ajs(n) => offset_fits(sp as i32, *n),
            Op::Bra(n) => offset_fits(next_ip as i32, *n),
            Op::Brf(n) => 1 <= sp && sp <= STACK_SIZE && (self.stack[sp as usize - 1] != 0
                || offset_fits(next_ip as i32, *n)),
            Op::Label(_) => true,
            Op::LoadG(a) => address_valid(*a as i64) && sp < STACK_SIZE,
            Op::StoreG(a) => address_valid(*a as i64) && 1 <= sp && sp <= STACK_SIZE,
            Op::LoadL(a) => offset_fits(fp as i32, *a) && address_valid(fp as i32 as i64 + *a as i64)
                && sp < STACK_SIZE,
            Op::StoreL(a) => offset_fits(fp as i32, *a) && address_valid(fp as i32 as i64 + *a as i64)
                && 1 <= sp && sp <= STACK_SIZE,
            Op::Call(_) => sp <= STACK_SIZE - 2,
            Op::Ret => 2 <= fp && fp <= STACK_SIZE,
            Op::Goto(_) | Op::Pow | Op::Cos | Op::Lte | Op::Gte => false,
        }
    }

    /// Takes one step: runs the instruction at the instruction pointer, or
    /// halts at the end of the code. Float work is left to the caller as the
    /// returned request.
    pub fn run(&mut self) -> (req: Request)
        requires
            old(self).wf(),
            runnable(old(self)@),
        ensures
            final(self).wf(),
            final(self)@ == step(old(self)@).0,
            req == step(old(self)@).1,
    {
        if self.ip == self.code.len() as u64 {
            self.halted = true;
            return Request::Halt;
        }
        let i = self.ip as usize;
        self.ip = self.ip + 1;
        match &self.code[i] {
            Op::PushF(f) => {
                let f = *f;
                self.push(f);
                Request::Proceed
            },
            Op::Add => {
                let (a, b) = self.take_operands();
                Request::Arithmetic(Arithmetic::Add, a, b)
            },
            Op::Sub => {
                let (a, b) = self.take_operands();
                Request::Arithmetic(Arithmetic::Sub, a, b)
            },
            Op::Mul => {
                let (a, b) = self.take_operands();
                Request::Arithmetic(Arithmetic::Mul, a, b)
            },
            Op::Div => {
                let (a, b) = self.take_operands();
                Request::Arithmetic(Arithmetic::Div, a, b)
            },
            Op::Lt => {
                let (a, b) = self.take_operands();
                Request::Compare(Comparison::Less, a, b)
            },
            Op::Gt => {
                let (a, b) = self.take_operands();
                Request::Compare(Comparison::Greater, a, b)
            },
            Op::Eq => {
                let (a, b) = self.take_operands();
                Request::Compare(Comparison::Equal, a, b)
            },
            Op::Neq => {
                let (a, b) = self.take_operands();
                Request::Compare(Comparison::NotEqual, a, b)
            },
            Op::Sin => Request::Sine(self.pop()),
            Op::Print => Request::Print(self.pop()),
            Op::Movf => Request::Forward(self.pop()),
            Op::Movl => Request::TurnLeft(self.pop()),
            Op::Movr => Request::TurnRight(self.pop()),
            Op::Ajs(n) => {
                let sp: i32 = self.sp as i32 + *n;
                self.sp = sp as u64;
                Request::Proceed
            },
            Op::Bra(n) => {
                let ip: i32 = self.ip as i32 + *n;
                self.ip = ip as u64;
                Request::Proceed
            },
            Op::Brf(n) => {
                let n = *n;
                if self.pop() == 0 {
                    let ip: i32 = self.ip as i32 + n;
                    self.ip = ip as u64;
                }
                Request::Proceed
            },
            Op::Label(_) => Request::Proceed,
            Op::LoadG(a) => {
                let val = self.stack[*a as usize];
                self.push(val);
                Request::Proceed
            },
            Op::StoreG(a) => {
                let adr = *a as usize;
                let val = self.stack[self.sp as usize - 1];
                self.stack.set(adr, val);
                Request::Proceed
            },
            Op::LoadL(a) => {
                let adr: i32 = self.fp as i32 + *a;
                let val = self.stack[adr as usize];
                self.push(val);
                Request::Proceed
            },
            Op::StoreL(a) => {
                let adr: i32 = self.fp as i32 + *a;
                let val = self.stack[self.sp as usize - 1];
                self.stack.set(adr as usize, val);
                Request::Proceed
            },
            Op::Call(l) => {
                let target = self.find_label(l);
                let ip = self.ip;
                self.push(ip);
                let fp = self.fp;
                self.push(fp);
                self.fp = self.sp;
                self.ip = target;
                Request::Proceed
            },
            Op::Ret => {
                self.sp = self.fp;
                self.fp = self.pop();
                self.ip = self.pop();
                Request::Proceed
            },
            Op::StoreRR => {
                self.rr = self.pop();
                Request::Proceed
            },
            Op::LoadRR => {
                let rr = self.rr;
                self.push(rr);
                Request::Proceed
            },
            Op::Goto(_) | Op::Pow | Op::Cos | Op::Lte | Op::Gte => Request::Proceed,
        }
    }

    /// Answers a request for a value by pushing the value computed for it.
    pub fn complete(&mut self, value: u64)
        requires
            old(self).wf(),
            old(self)@.sp < STACK_SIZE,
        ensures
            final(self).wf(),
            final(self)@ == pushed(old(self)@, value),
    {
        self.push(value);
    }

    /// Answers a comparison: pushes `1.0` when it holds, `0.0` when not.
    pub fn complete_comparison(&mut self, holds: bool)
        requires
            old(self).wf(),
            old(self)@.sp < STACK_SIZE,
        ensures
            final(self).wf(),
            final(self)@ == pushed(old(self)@, if holds { TRUE_BITS } else { FALSE_BITS }),
    {
        if holds {
            self.push(TRUE_BITS);
        } else {
            self.push(FALSE_BITS);
        }
    }

    /// Pops the two topmost values: the second from the top, then the top.
    fn take_operands(&mut self) -> (res: (u64, u64))
        requires
            old(self).wf(),
            2 <= old(self)@.sp <= STACK_SIZE,
        ensures
            final(self).wf(),
            final(self)@ == operands(old(self)@).0,
            res == (operands(old(self)@).1, operands(old(self)@).2),
    {
        let b = self.pop();
        let a = self.pop();
        (a, b)
    }

    /// Where a call of `name` jumps.
    fn find_label(&self, name: &String) -> (ip: u64)
        requires
            self.wf(),
        ensures
            ip == label_target(self@.code, name@),
    {
        let ghost entries = label_entries(self.code@);
        let mut j = self.labels.len();
        assert(entries.take(j as int) =~= entries);
        while j > 0
            invariant
                self.wf(),
                entries == label_entries(self.code@),
                j <= self.labels.len(),
                last_entry(entries, name@) == last_entry(entries.take(j as int), name@),
            decreases j,
        {
            let entry = &self.labels[j - 1];
            proof {
                assert(entries.take(j as int).last() == entries[j - 1]);
                assert(entries.take(j as int).drop_last() =~= entries.take(j - 1));
            }
            if entry.0 == *name {
                proof {
                    lemma_label_entries_bounds(self.code@);
                }
                return entry.1;
            }
            j -= 1;
        }
        proof {
            assert(entries.take(0) =~= Seq::<(Seq<char>, int)>::empty());
        }
        self.code.len() as u64
    }
}

/// A return undoes a call: when a `Call` is followed, later, by a `Ret` with the
/// frame pointer that the call set up and the two cells below it untouched,
/// the return resumes at the instruction after the call, with the stack and
/// frame pointers the call found.
pub proof fn law_return_undoes_call(s: CpuState, u: CpuState)
    requires
        s.stack.len() == STACK_SIZE,
        s.ip < s.code.len(),
        s.code[s.ip as int] is Call,
        runnable(s),
        u.ip < u.code.len(),
        u.code[u.ip as int] is Ret,
        u.fp == step(s).0.fp,
        u.stack[u.fp - 1] == step(s).0.stack[u.fp - 1],
        u.stack[u.fp - 2] == step(s).0.stack[u.fp - 2],
    ensures
        step(u).0.ip == advanced(s).ip,
        step(u).0.fp == s.fp,
        step(u).0.sp == s.sp,
{
}

/// The float work a binary instruction asks for, and its kind, by instruction.
pub open spec fn binary_request(op: Op, left: u64, right: u64) -> Option<Request> {
    match op {
        Op::Add => Some(Request::Arithmetic(Arithmetic::Add, left, right)),
        Op::Sub => Some(Request::Arithmetic(Arithmetic::Sub, left, right)),
        Op::Mul => Some(Request::Arithmetic(Arithmetic::Mul, left, right)),
        Op::Div => Some(Request::Arithmetic(Arithmetic::Div, left, right)),
        Op::Lt => Some(Request::Compare(Comparison::Less, left, right)),
        Op::Gt => Some(Request::Compare(Comparison::Greater, left, right)),
        Op::Eq => Some(Request::Compare(Comparison::Equal, left, right)),
        Op::Neq => Some(Request::Compare(Comparison::NotEqual, left, right)),
        _ => None,
    }
}

/// A binary float instruction takes its operands in source order: the value
/// second from the top of the stack is the left operand and the top value the
/// right one (so `a b Sub` asks for `a - b`). Both are taken off the stack,
/// nothing else on it changes, and the machine moves on to the next
/// instruction.
pub proof fn law_binary_operand_order(s: CpuState)
    requires
        halt_consistent(s),
        s.code.len() <= u64::MAX,
        s.ip < s.code.len(),
        runnable(s),
        binary_request(s.code[s.ip as int], 0, 0) is Some,
    ensures
        step(s).1 == binary_request(s.code[s.ip as int], s.stack[s.sp - 2], s.stack[s.sp - 1]).unwrap(),
        step(s).0.sp == s.sp - 2,
        step(s).0.stack == s.stack,
        step(s).0.ip == s.ip + 1,
        step(s).0.fp == s.fp,
        step(s).0.rr == s.rr,
        !step(s).0.halted,
{
}

/// A halted machine stays halted: its next step can always be taken, asks to
/// halt and changes nothing.
pub proof fn law_halted_stays_halted(s: CpuState)
    requires
        halt_consistent(s),
        s.halted,
    ensures
        runnable(s),
        step(s).0 == s,
        step(s).1 == Request::Halt,
        halt_consistent(step(s).0),
{
}

/// Halting is absorbing: at the end of the code a step only marks the machine
/// halted and asks to halt, it can always be taken, and every further step
/// does the same and changes nothing.
pub proof fn law_halting_is_absorbing(s: CpuState)
    requires
        s.ip == s.code.len(),
    ensures
        runnable(s),
        step(s).0 == (CpuState { halted: true, ..s }),
        step(s).1 == Request::Halt,
        runnable(step(s).0),
        step(step(s).0) == step(s),
{
}

/// Whether `r + n` fits in an `i32`.
fn offset_fits(r: i32, n: i32) -> (ok: bool)
    ensures
        ok == fits_i32(r + n),
{
    let x = r as i64 + n as i64;
    i32::MIN as i64 <= x && x <= i32::MAX as i64
}

/// Whether `a` is an address on the stack.
fn address_valid(a: i64) -> (ok: bool)
    ensures
        ok == valid_address(a as int),
{
    0 <= a && a < STACK_SIZE as i64
}

/// Each label entry is the index of an instruction of the code.
proof fn lemma_label_entries_bounds(code: Seq<Op>)
    ensures
        forall|i: int| 0 <= i < label_entries(code).len() ==> 0 <= #[trigger] label_entries(code)[i].1 < code.len(),
    decreases code.len(),
{
    if code.len() > 0 {
        let rest = label_entries(code.drop_last());
        lemma_label_entries_bounds(code.drop_last());
        assert forall|i: int| 0 <= i < label_entries(code).len() implies 0 <= #[trigger] label_entries(
            code,
        )[i].1 < code.len() by {
            if i < rest.len() {
                assert(label_entries(code)[i] == rest[i]);
            }
        }
    }
}

} // verus!
