//! Native code, run on a small machine that executes it instruction by
//! instruction: it must print what the interpreter prints, and fail as it
//! fails. The machine stops at any access outside what is allocated.

use std::collections::{BTreeMap, HashMap};
use zarrinc::ast::{BinOp, Program};
use zarrinc::codegen_llvm::compile_to_module;
use zarrinc::interp_state::{Action, Interpreter};
use zarrinc::ir::{Arith, Cast, Cond, FloatArith, FloatCond, Func, Module, Op, Room, Ty, Val};
use zarrinc::monomorphize::expand;
use zarrinc::parser::parse;
use zarrinc::value::Value;

struct Outcome {
    stdout: String,
    stderr: String,
    code: i32,
    /// How many heap blocks were still there at the end, and how many were made.
    live: usize,
    made: usize,
}

fn first_line(s: &str) -> &str {
    s.lines().next().unwrap_or_default()
}

fn program(src: &str) -> Program {
    let parsed = match parse(src) {
        Ok(p) => p,
        Err(d) => panic!("{}", d.render("prog.zr", src)),
    };
    match expand(&parsed) {
        Ok(p) => p,
        Err(d) => panic!("{}", d.render("prog.zr", src)),
    }
}

fn number(text: &str) -> f64 {
    text.parse().unwrap()
}

fn float(x: f64) -> Value {
    Value::Float(format!("{}", x))
}

fn float_op(op: BinOp, a: f64, b: f64) -> Value {
    match op {
        BinOp::Add => float(a + b),
        BinOp::Sub => float(a - b),
        BinOp::Mul => float(a * b),
        BinOp::Div => float(a / b),
        BinOp::Mod => float(a % b),
        BinOp::Eq => Value::Bool(a == b),
        BinOp::Ne => Value::Bool(a != b),
        BinOp::Lt => Value::Bool(a < b),
        BinOp::Le => Value::Bool(a <= b),
        BinOp::Gt => Value::Bool(a > b),
        BinOp::Ge => Value::Bool(a >= b),
        BinOp::And | BinOp::Or => unreachable!(),
    }
}

fn interpret(src: &str) -> Outcome {
    let program = program(src);
    let mut out = Outcome { stdout: String::new(), stderr: String::new(), code: 0, live: 0, made: 0 };
    let mut machine = Interpreter::new(&program);
    loop {
        match machine.run(1_000_000) {
            Action::Continue => {}
            Action::Print(line) => {
                out.stdout.push_str(&line);
                out.stdout.push('\n');
            }
            Action::Fail(d) => {
                out.stderr = d.render("prog.zr", src);
                out.code = 1;
                return out;
            }
            Action::Done => return out,
            Action::FloatLit(t) => machine.answer(float(number(&t))),
            Action::FloatNeg(t) => machine.answer(float(-number(&t))),
            Action::FloatOp(op, a, b) => machine.answer(float_op(op, number(&a), number(&b))),
            Action::Clock => machine.answer(Value::Int(0)),
            Action::Sleep(_) => machine.answer(Value::Unit),
        }
    }
}

#[derive(Clone, Copy, Debug)]
enum V {
    W(i64),
    H(i32),
    B(u8),
    P(usize),
    R(f64),
    T(bool),
}

/// Why execution ended.
enum Stop {
    Exit(i32),
}

const STACK: usize = 1 << 16;
const HEAP: usize = 1 << 24;

struct Machine<'a> {
    funcs: HashMap<&'a str, &'a Func>,
    module: &'a Module,
    fixed: Vec<u8>,
    texts: Vec<usize>,
    strs: Vec<usize>,
    globals: Vec<usize>,
    stack: Vec<u8>,
    sp: usize,
    heap: BTreeMap<usize, (Vec<u8>, bool)>,
    next: usize,
    stdout: String,
    stderr: String,
}

impl<'a> Machine<'a> {
    fn new(module: &'a Module) -> Self {
        let mut m = Machine {
            funcs: HashMap::new(),
            module,
            fixed: vec![0; 64],
            texts: Vec::new(),
            strs: Vec::new(),
            globals: Vec::new(),
            stack: vec![0; HEAP - STACK],
            sp: STACK,
            heap: BTreeMap::new(),
            next: HEAP,
            stdout: String::new(),
            stderr: String::new(),
        };
        for f in &module.done {
            assert!(m.funcs.insert(f.name.as_str(), f).is_none(), "two functions `{}`", f.name);
        }
        for t in &module.texts {
            m.texts.push(m.fixed.len());
            m.fixed.extend_from_slice(t.as_bytes());
            m.fixed.push(0);
            while m.fixed.len() % 16 != 0 {
                m.fixed.push(0);
            }
            m.fixed.extend_from_slice(&(-1i64).to_le_bytes());
            m.fixed.extend_from_slice(&[0; 8]);
            m.strs.push(m.fixed.len());
            m.fixed.extend_from_slice(t.as_bytes());
            m.fixed.push(0);
        }
        for _ in &module.globals {
            while m.fixed.len() % 16 != 0 {
                m.fixed.push(0);
            }
            m.globals.push(m.fixed.len());
            m.fixed.extend_from_slice(&[0; 16]);
        }
        assert!(m.fixed.len() < STACK, "too many constants");
        m
    }

    fn bytes(&mut self, at: usize, n: usize) -> &mut [u8] {
        if at < STACK {
            assert!(at >= 64 && at + n <= self.fixed.len(), "access to {} outside the constants", at);
            return &mut self.fixed[at..at + n];
        }
        if at < HEAP {
            assert!(at + n <= self.sp, "access beyond the stack");
            return &mut self.stack[at - STACK..at - STACK + n];
        }
        let (base, (block, live)) =
            self.heap.range_mut(..=at).next_back().unwrap_or_else(|| panic!("wild access to {}", at));
        assert!(*live, "access to freed memory");
        assert!(at - *base + n <= block.len(), "access beyond a heap block");
        &mut block[at - *base..at - *base + n]
    }

    fn word(&mut self, at: usize) -> u64 {
        let mut b = [0u8; 8];
        b.copy_from_slice(self.bytes(at, 8));
        u64::from_le_bytes(b)
    }

    fn cstr(&mut self, at: usize) -> Vec<u8> {
        let mut out = Vec::new();
        let mut i = at;
        loop {
            let b = self.bytes(i, 1)[0];
            if b == 0 {
                return out;
            }
            out.push(b);
            i += 1;
        }
    }

    fn load(&mut self, ty: Ty, at: usize) -> V {
        match ty {
            Ty::Byte => V::B(self.bytes(at, 1)[0]),
            Ty::Word => V::W(self.word(at) as i64),
            Ty::Real => V::R(f64::from_bits(self.word(at))),
            Ty::Ptr => V::P(self.word(at) as usize),
        }
    }

    fn store(&mut self, at: usize, v: V) {
        match v {
            V::B(b) => self.bytes(at, 1)[0] = b,
            V::W(w) => self.bytes(at, 8).copy_from_slice(&w.to_le_bytes()),
            V::P(p) => self.bytes(at, 8).copy_from_slice(&(p as u64).to_le_bytes()),
            V::R(r) => self.bytes(at, 8).copy_from_slice(&r.to_bits().to_le_bytes()),
            other => panic!("cannot store {:?}", other),
        }
    }

    fn reserve(&mut self, n: usize) -> usize {
        let at = self.sp;
        self.sp += (n + 15) / 16 * 16;
        assert!(self.sp <= HEAP, "stack overflow");
        at
    }

    /// What `printf` makes of a format and its arguments.
    fn format(&mut self, fmt: &[u8], args: &[V]) -> Vec<u8> {
        let mut out = Vec::new();
        let mut next = args.iter().copied();
        let mut i = 0;
        while i < fmt.len() {
            if fmt[i] != b'%' {
                out.push(fmt[i]);
                i += 1;
                continue;
            }
            let rest = &fmt[i + 1..];
            if rest.starts_with(b"%") {
                out.push(b'%');
                i += 2;
            } else if rest.starts_with(b"ld") {
                let w = Self::num(next.next().unwrap());
                out.extend_from_slice(format!("{}", w).as_bytes());
                i += 3;
            } else if rest.starts_with(b"s") {
                let at = Self::ptr(next.next().unwrap());
                let text = self.cstr(at);
                out.extend_from_slice(&text);
                i += 2;
            } else if rest.starts_with(b".*") {
                let (prec, x) = match (next.next().unwrap(), next.next().unwrap()) {
                    (V::H(p), V::R(x)) => (p as usize, x),
                    other => panic!("{:?}", other),
                };
                let text = match rest[2] {
                    b'f' => format!("{:.*}", prec, x),
                    b'g' => format!("{:.*e}", prec.max(1) - 1, x),
                    _ => {
                        let plain = format!("{:.*e}", prec, x);
                        match plain.split_once('e') {
                            Some((m, e)) => {
                                let n: i32 = e.parse().unwrap();
                                format!("{}e{}{:02}", m, if n < 0 { '-' } else { '+' }, n.abs())
                            }
                            None => plain,
                        }
                    }
                };
                out.extend_from_slice(text.as_bytes());
                i += 4;
            } else {
                panic!("unknown conversion");
            }
        }
        out
    }

    fn ptr(v: V) -> usize {
        match v {
            V::P(p) => p,
            other => panic!("not an address: {:?}", other),
        }
    }

    fn num(v: V) -> i64 {
        match v {
            V::W(w) => w,
            other => panic!("not a word: {:?}", other),
        }
    }

    fn call(&mut self, name: &str, args: &[V]) -> Result<Option<V>, Stop> {
        if let Some(f) = self.funcs.get(name).copied() {
            return self.run(f, args);
        }
        Ok(match name {
            "malloc" => {
                let n = Self::num(args[0]) as usize;
                let at = self.next;
                self.next += (n + 64) / 16 * 16;
                self.heap.insert(at, (vec![0xaa; n], true));
                Some(V::P(at))
            }
            "free" => {
                let at = Self::ptr(args[0]);
                let (_, live) = self.heap.get_mut(&at).unwrap_or_else(|| panic!("free of no block"));
                assert!(*live, "freed twice");
                *live = false;
                None
            }
            "exit" => match args[0] {
                V::H(c) => return Err(Stop::Exit(c)),
                _ => panic!("exit"),
            },
            "fflush" => Some(V::H(0)),
            "printf" => {
                let fmt = self.cstr(Self::ptr(args[0]));
                let text = self.format(&fmt, &args[1..]);
                self.stdout.push_str(&String::from_utf8(text).unwrap());
                Some(V::H(0))
            }
            "snprintf" => {
                let (at, cap) = (Self::ptr(args[0]), Self::num(args[1]) as usize);
                let fmt = self.cstr(Self::ptr(args[2]));
                let text = self.format(&fmt, &args[3..]);
                if cap > 0 {
                    let n = text.len().min(cap - 1);
                    self.bytes(at, n + 1)[..n].copy_from_slice(&text[..n]);
                    self.bytes(at, n + 1)[n] = 0;
                }
                Some(V::H(text.len() as i32))
            }
            "write" => {
                let (at, n) = (Self::ptr(args[1]), Self::num(args[2]) as usize);
                let text = self.bytes(at, n).to_vec();
                self.stderr.push_str(&String::from_utf8(text).unwrap());
                Some(V::W(n as i64))
            }
            "strlen" => Some(V::W(self.cstr(Self::ptr(args[0])).len() as i64)),
            "memcpy" => {
                let n = Self::num(args[2]) as usize;
                let from = self.bytes(Self::ptr(args[1]), n).to_vec();
                self.bytes(Self::ptr(args[0]), n).copy_from_slice(&from);
                None
            }
            "strstr" => {
                let base = Self::ptr(args[0]);
                let (a, b) = (self.cstr(base), self.cstr(Self::ptr(args[1])));
                let hit = (0..=a.len()).find(|i| a[*i..].starts_with(&b));
                Some(V::P(hit.map(|i| base + i).unwrap_or(0)))
            }
            "strcmp" => {
                let (a, b) = (self.cstr(Self::ptr(args[0])), self.cstr(Self::ptr(args[1])));
                Some(V::H(if a < b { -1 } else if a > b { 1 } else { 0 }))
            }
            "strspn" => {
                let (a, b) = (self.cstr(Self::ptr(args[0])), self.cstr(Self::ptr(args[1])));
                Some(V::W(a.iter().take_while(|c| b.contains(c)).count() as i64))
            }
            "strtod" => {
                let t = self.cstr(Self::ptr(args[0]));
                Some(V::R(String::from_utf8(t).unwrap().parse().unwrap()))
            }
            "llvm.stacksave.p0" => Some(V::P(self.sp)),
            "llvm.stackrestore.p0" => {
                self.sp = Self::ptr(args[0]);
                None
            }
            other => panic!("no function `{}`", other),
        })
    }

    fn run(&mut self, f: &'a Func, args: &[V]) -> Result<Option<V>, Stop> {
        assert_eq!(f.params.len(), args.len(), "arguments of `{}`", f.name);
        let entry_sp = self.sp;
        let mut slots = Vec::new();
        for s in &f.slots {
            let n = match s.room {
                Room::Bytes(n) => n as usize,
                _ => 8,
            };
            slots.push(self.reserve(n));
        }
        let mut blocks: Vec<Vec<usize>> = vec![Vec::new(); f.blocks.len()];
        for (i, inst) in f.insts.iter().enumerate() {
            blocks[inst.block].push(i);
        }
        let mut regs: Vec<Option<V>> = vec![None; f.insts.len()];
        let (mut at, mut from) = (0usize, 0usize);
        'blocks: loop {
            for &i in &blocks[at] {
                let get = |v: Val| -> V {
                    match v {
                        Val::Word(w) => V::W(w),
                        Val::Half(h) => V::H(h),
                        Val::Byte(b) => V::B(b),
                        Val::Null => V::P(0),
                        Val::Real(k) => V::R(self.module.reals[k].parse().unwrap()),
                        Val::Text(k) => V::P(self.texts[k]),
                        Val::Str(k) => V::P(self.strs[k]),
                        Val::Reg(k) => {
                            regs[k].unwrap_or_else(|| panic!("register {} of `{}` is not set", k, f.name))
                        }
                        Val::Param(k) => match (f.params[k], args[k]) {
                            (Ty::Ptr, V::P(_)) | (Ty::Word, V::W(_)) => args[k],
                            other => panic!("parameter {} of `{}`: {:?}", k, f.name, other),
                        },
                        Val::Slot(k) => V::P(slots[k]),
                        Val::Global(k) => V::P(self.globals[k]),
                    }
                };
                let result = match &f.insts[i].op {
                    Op::Arith(k, a, b) => Some(match (get(*a), get(*b)) {
                        (V::W(a), V::W(b)) => V::W(match k {
                            Arith::Add => a.wrapping_add(b),
                            Arith::Sub => a.wrapping_sub(b),
                            Arith::Mul => a.wrapping_mul(b),
                            Arith::Div => a / b,
                            Arith::Rem => a % b,
                            Arith::And => a & b,
                            Arith::Or => a | b,
                        }),
                        (V::T(a), V::T(b)) => V::T(match k {
                            Arith::And => a && b,
                            Arith::Or => a || b,
                            _ => panic!("arithmetic on conditions"),
                        }),
                        other => panic!("arithmetic on {:?}", other),
                    }),
                    Op::Neg(a) => Some(V::W(Self::num(get(*a)).wrapping_neg())),
                    Op::Float(k, a, b) => match (get(*a), get(*b)) {
                        (V::R(a), V::R(b)) => Some(V::R(match k {
                            FloatArith::Add => a + b,
                            FloatArith::Sub => a - b,
                            FloatArith::Mul => a * b,
                            FloatArith::Div => a / b,
                            FloatArith::Rem => a % b,
                        })),
                        other => panic!("floats {:?}", other),
                    },
                    Op::FloatNeg(a) => match get(*a) {
                        V::R(a) => Some(V::R(-a)),
                        other => panic!("{:?}", other),
                    },
                    Op::Compare(k, a, b) => {
                        let (a, b) = match (get(*a), get(*b)) {
                            (V::W(a), V::W(b)) => (a, b),
                            (V::B(a), V::B(b)) => (a as i8 as i64, b as i8 as i64),
                            (V::P(a), V::P(b)) => (a as i64, b as i64),
                            other => panic!("comparison of {:?}", other),
                        };
                        Some(V::T(match k {
                            Cond::Eq => a == b,
                            Cond::Ne => a != b,
                            Cond::Lt => a < b,
                            Cond::Le => a <= b,
                            Cond::Gt => a > b,
                            Cond::Ge => a >= b,
                        }))
                    }
                    Op::FloatCompare(k, a, b) => match (get(*a), get(*b)) {
                        (V::R(a), V::R(b)) => Some(V::T(match k {
                            FloatCond::Eq => a == b,
                            FloatCond::Ne => a != b,
                            FloatCond::Lt => a < b,
                            FloatCond::Le => a <= b,
                            FloatCond::Gt => a > b,
                            FloatCond::Ge => a >= b,
                            FloatCond::Unordered => a.is_nan() || b.is_nan(),
                        })),
                        other => panic!("floats {:?}", other),
                    },
                    Op::Not(a) => match get(*a) {
                        V::T(a) => Some(V::T(!a)),
                        other => panic!("{:?}", other),
                    },
                    Op::Cast(k, a) => Some(match (k, get(*a)) {
                        (Cast::BoolToWord, V::T(t)) => V::W(t as i64),
                        (Cast::HalfToWord, V::H(h)) => V::W(h as i64),
                        (Cast::WordToHalf, V::W(w)) => V::H(w as i32),
                        (Cast::WordToReal, V::W(w)) => V::R(f64::from_bits(w as u64)),
                        (Cast::RealToWord, V::R(r)) => V::W(r.to_bits() as i64),
                        (Cast::WordToPtr, V::W(w)) => V::P(w as usize),
                        (Cast::PtrToWord, V::P(p)) => V::W(p as i64),
                        other => panic!("cast {:?}", other),
                    }),
                    Op::Load(t, a) => {
                        let p = Self::ptr(get(*a));
                        Some(self.load(*t, p))
                    }
                    Op::Store(a, v) => {
                        let (p, v) = (Self::ptr(get(*a)), get(*v));
                        self.store(p, v);
                        None
                    }
                    Op::Offset(t, a, n) => {
                        let size: i64 = if *t == Ty::Byte { 1 } else { 8 };
                        let p = Self::ptr(get(*a)) as i64;
                        Some(V::P((p + size * Self::num(get(*n))) as usize))
                    }
                    Op::Reserve(n) => {
                        let n = Self::num(get(*n)) as usize;
                        Some(V::P(self.reserve(n)))
                    }
                    Op::Select(c, a, b) => match get(*c) {
                        V::T(c) => Some(if c { get(*a) } else { get(*b) }),
                        other => panic!("{:?}", other),
                    },
                    Op::Call(t, name, vs) => {
                        let vs: Vec<V> = vs.iter().map(|v| get(*v)).collect();
                        let r = self.call(name, &vs)?.unwrap_or_else(|| panic!("`{}` gave nothing", name));
                        match (t, r) {
                            (Ty::Word, V::W(_)) | (Ty::Ptr, V::P(_)) | (Ty::Real, V::R(_)) => Some(r),
                            other => panic!("`{}` gave {:?}", name, other),
                        }
                    }
                    Op::CallHalf(name, vs) => {
                        let vs: Vec<V> = vs.iter().map(|v| get(*v)).collect();
                        match self.call(name, &vs)? {
                            Some(V::H(h)) => Some(V::H(h)),
                            other => panic!("`{}` gave {:?}", name, other),
                        }
                    }
                    Op::Run(name, vs) => {
                        let vs: Vec<V> = vs.iter().map(|v| get(*v)).collect();
                        self.call(name, &vs)?;
                        None
                    }
                    Op::Phi(vs) => {
                        let hit = vs.iter().find(|(_, b)| *b == from);
                        Some(get(hit.unwrap_or_else(|| panic!("no value from block {}", from)).0))
                    }
                    Op::Jump(b) => {
                        from = at;
                        at = *b;
                        continue 'blocks;
                    }
                    Op::Branch(c, a, b) => match get(*c) {
                        V::T(c) => {
                            from = at;
                            at = if c { *a } else { *b };
                            continue 'blocks;
                        }
                        other => panic!("{:?}", other),
                    },
                    Op::Return(v) => {
                        assert_eq!(f.gives, v.is_some(), "what `{}` returns", f.name);
                        let r = v.map(|v| get(v));
                        self.sp = entry_sp;
                        return Ok(r);
                    }
                    Op::Unreachable => panic!("unreachable code of `{}` reached", f.name),
                };
                regs[i] = result;
            }
            panic!("block `{}` of `{}` has no end", f.blocks[at].name, f.name);
        }
    }
}

fn compiled(src: &str) -> Module {
    match compile_to_module(&program(src), "prog.zr", src) {
        Ok(m) => m,
        Err(why) => panic!("no native code: {}", why),
    }
}

fn execute(src: &str) -> Outcome {
    let module = compiled(src);
    let mut m = Machine::new(&module);
    let code = match m.call("main", &[]) {
        Ok(_) => 0,
        Err(Stop::Exit(c)) => c,
    };
    Outcome {
        live: m.heap.values().filter(|(_, live)| *live).count(),
        made: m.heap.len(),
        stdout: m.stdout,
        stderr: m.stderr,
        code,
    }
}

/// A run-time failure must look the same from either backend: same stdout up to
/// the failure, same message, same exit status.
fn assert_fails_like_the_interpreter(src: &str) {
    let (native, interpreted) = (execute(src), interpret(src));
    assert_eq!(interpreted.code, 1, "the interpreter accepted this program");
    assert_eq!(native.code, 1, "native exit status");
    assert_eq!(native.stdout, interpreted.stdout, "output before the failure differs");
    assert_eq!(first_line(&native.stderr), first_line(&interpreted.stderr), "diagnostic differs");
    assert!(native.stderr.starts_with("error: "), "not a diagnostic: {}", native.stderr);
}

/// The compiled program must print exactly what the interpreter prints.
fn assert_agrees_with_interpreter(src: &str) {
    let (native, interpreted) = (execute(src), interpret(src));
    assert_eq!(interpreted.code, 0, "interpreter failed:\n{}", interpreted.stderr);
    assert_eq!(native.code, 0, "native code failed:\n{}", native.stderr);
    assert_eq!(native.stdout, interpreted.stdout, "native output disagrees with the interpreter");
}

/// How often the code calls a function whose name starts so.
fn calls(m: &Module, name: &str) -> usize {
    m.done
        .iter()
        .flat_map(|f| f.insts.iter())
        .filter(|i| match &i.op {
            Op::Call(_, n, _) | Op::CallHalf(n, _) | Op::Run(n, _) => n.starts_with(name),
            _ => false,
        })
        .count()
}

#[test]
fn an_enum_payload_survives_the_frame_that_built_it() {
    assert_agrees_with_interpreter(
        r#"
fn wrap(a: int) -> Option { return Some(a); }
fn noise(n: int) -> int { let t = 0; let i = 0; while i < n { t = t + i * 7; i = i + 1; } return t; }
fn main() {
    let o = wrap(12345);
    print(noise(60));
    print(o.unwrap());
}
"#,
    );
}

#[test]
fn array_literals_allocate_enough_room() {
    assert_agrees_with_interpreter(
        r#"
fn main() {
    let a = [1,2,3,4,5,6,7,8,9,10,11,12,13,14,15,16,17,18,19,20,21,22,23,24,25,26,27,28,29,30,31,32];
    print(array_len(a));
    print(array_get(a, 0));
    print(array_get(a, 31));
}
"#,
    );
}

#[test]
fn array_set_allocates_enough_room() {
    assert_agrees_with_interpreter(
        r#"
fn main() {
    let a = [1,2,3,4,5,6,7,8,9,10,11,12,13,14,15,16,17,18,19,20,21,22,23,24,25,26,27,28,29,30,31,32];
    let b = array_set(a, 0, 111);
    let c = array_set(b, 31, 222);
    print(array_get(c, 0));
    print(array_get(c, 31));
    print(array_len(c));
}
"#,
    );
}

#[test]
fn basics_agree_with_the_interpreter() {
    assert_agrees_with_interpreter(
        r#"
fn square(x: int) -> int { return x * x; }
fn main() {
    print(1 + 2 * 3);
    print(square(7));
    print("hello " + "world");
    let i = 0;
    while i < 3 { print(i); i = i + 1; }
    for k in 0..3 { if k == 1 { continue; } print(k * 10); }
}
"#,
    );
}

#[test]
fn match_on_an_enum_with_payloads_compiles() {
    assert_agrees_with_interpreter(
        r#"
enum S { C(int), R(int, int) }
fn area(s: S) -> int { return match s { C(r) => r * r, R(w, h) => w * h }; }
fn main() { print(area(C(5))); print(area(R(3, 4))); }
"#,
    );
}

#[test]
fn match_with_literal_multi_pattern_and_wildcard_arms() {
    assert_agrees_with_interpreter(
        r#"
fn f(n: int) -> int { return match n { 0 => 100, 1 | 2 => 200, _ => 300 }; }
fn main() { print(f(0)); print(f(1)); print(f(2)); print(f(9)); }
"#,
    );
}

#[test]
fn match_on_an_enum_without_payloads() {
    assert_agrees_with_interpreter(
        r#"
enum C { R, G, B }
fn f(c: C) -> int { return match c { R => 1, G => 2, B => 3 }; }
fn main() { print(f(R)); print(f(G)); print(f(B)); }
"#,
    );
}

#[test]
fn a_guarded_arm_falls_through_when_the_guard_fails() {
    assert_agrees_with_interpreter(
        r#"
fn f(n: int) -> int { return match n { x if x > 10 => 1, _ => 2 }; }
fn main() { print(f(50)); print(f(3)); }
"#,
    );
}

#[test]
fn a_guard_on_a_payload_pattern_compiles() {
    assert_agrees_with_interpreter(
        r#"
enum S { C(int), R(int, int) }
fn f(s: S) -> int { return match s { C(r) if r > 100 => 999, C(r) => r, R(w, h) => w * h }; }
fn main() { print(f(C(5))); print(f(C(500))); print(f(R(3, 4))); }
"#,
    );
}

#[test]
fn a_guard_on_the_last_arm_compiles() {
    assert_agrees_with_interpreter(
        r#"
fn f(n: int) -> int { return match n { 0 => 7, x if x > 10 => 1, _ => 0 }; }
fn main() { print(f(0)); print(f(50)); print(f(3)); }
"#,
    );
}

#[test]
fn the_float_match_example_agrees() {
    assert_agrees_with_interpreter(
        r#"
enum Shape { Circle(float), Rect(float, float) }
fn area(s: Shape) -> float { return match s { Circle(r) => 3.14 * r * r, Rect(w, h) => w * h }; }
fn main() { print(area(Circle(5.0))); print(area(Rect(3.0, 4.0))); }
"#,
    );
}

#[test]
fn whole_numbers_print_without_a_fraction() {
    assert_agrees_with_interpreter(r#"fn main() { print(12.0); print(1.0); print(100.0); }"#);
}

#[test]
fn precision_is_not_truncated() {
    assert_agrees_with_interpreter(
        r#"fn main() { print(1.0 / 3.0); print(2.0 / 7.0 * 1000000.0); print(0.1 + 0.2); }"#,
    );
}

#[test]
fn small_and_large_magnitudes() {
    assert_agrees_with_interpreter(
        r#"
fn main() {
    print(0.000000123);
    print(123456789012345.6789);
    print(100000.0 * 100000.0);
    print(0.00001);
}
"#,
    );
}

#[test]
fn signs_and_zero() {
    assert_agrees_with_interpreter(r#"fn main() { print(0.0); print(0.0 - 0.0); print(0.0 - 0.5); print(0.0 - 7.25); }"#);
}

#[test]
fn nan_and_infinity() {
    assert_agrees_with_interpreter(
        r#"fn main() { print(1.0 / 0.0 - 1.0 / 0.0); print(1.0 / 0.0); print(0.0 - 1.0 / 0.0); }"#,
    );
}

#[test]
fn to_string_and_print_agree_on_floats() {
    assert_agrees_with_interpreter(r#"fn main() { print(78.5); print(to_string(78.5)); }"#);
}

#[test]
fn payload_free_variants_print_their_name() {
    assert_agrees_with_interpreter(
        r#"
enum Color { Red, Green, Blue }
fn main() { print(Red); print(Green); print(Blue); let c = Green; print(c); }
"#,
    );
}

#[test]
fn variants_with_payloads_print_their_fields() {
    assert_agrees_with_interpreter(
        r#"
enum Color { Red, Rgb(int, int, int) }
fn main() { print(Rgb(255, 128, 0)); print(Red); let d = Rgb(7, 8, 9); print(d); }
"#,
    );
}

#[test]
fn payloads_of_every_type_print_correctly() {
    assert_agrees_with_interpreter(
        r#"
enum S { Circle(float), Named(string), Pair(int, float) }
fn main() { print(Circle(2.5)); print(Named("hi")); print(Pair(3, 0.5)); }
"#,
    );
}

#[test]
fn enums_from_calls_and_parameters_print() {
    assert_agrees_with_interpreter(
        r#"
enum Color { Red, Rgb(int, int, int) }
fn pick(n: int) -> Color { if n == 0 { return Red; } return Rgb(1, 2, 3); }
fn show(c: Color) { print(c); }
fn main() { print(pick(0)); print(pick(1)); show(Red); show(Rgb(4, 5, 6)); }
"#,
    );
}

#[test]
fn builtin_option_prints_like_a_declared_enum() {
    assert_agrees_with_interpreter(r#"fn main() { let o = Some(5); print(o); print(None); }"#);
}

#[test]
fn enums_render_through_to_string_and_interpolation() {
    assert_agrees_with_interpreter(
        r#"
enum Color { Red, Rgb(int, int, int) }
fn main() { let d = Rgb(7, 8, 9); print(to_string(Red)); print("value: {d}"); }
"#,
    );
}

#[test]
fn matching_a_payload_free_enum_still_works() {
    assert_agrees_with_interpreter(
        r#"
enum P { A, B, C }
fn f(p: P) -> int { return match p { A => 1, B => 2, C => 3 }; }
fn main() { print(f(A)); print(f(B)); print(f(C)); print(A); }
"#,
    );
}

#[test]
fn matching_option_and_result_binds_payloads() {
    assert_agrees_with_interpreter(
        r#"
fn describe(o: Option) -> int { return match o { Some(v) => v, None => 0 - 1 }; }
fn check(r: Result) -> int { return match r { Ok(v) => v, Err(e) => 0 - e }; }
fn main() {
    print(describe(Some(42)));
    print(describe(None));
    print(check(Ok(7)));
    print(check(Err(3)));
}
"#,
    );
}

#[test]
fn matching_an_integer_works_alongside_a_payload_enum() {
    assert_agrees_with_interpreter(
        r#"
enum Shape { Circle(int), Square(int) }
fn classify(n: int) -> int { return match n { 0 => 10, 1 => 20, _ => 30 }; }
fn main() { print(classify(0)); print(classify(1)); print(classify(5)); }
"#,
    );
}

#[test]
fn qualified_patterns_match_natively() {
    assert_agrees_with_interpreter(
        r#"
enum C { R, G }
fn f(c: C) -> int { return match c { C::R => 1, C::G => 2, _ => 9 }; }
fn main() { print(f(R)); print(f(G)); }
"#,
    );
}

#[test]
fn fields_of_a_struct_returned_from_a_function() {
    assert_agrees_with_interpreter(
        r#"
struct P { x: int, y: int }
fn make(a: int) -> P { return P { x: a, y: a + 1 }; }
fn main() { let p = make(10); print(p.x); print(p.y); print(make(5).x); }
"#,
    );
}

#[test]
fn fields_of_a_struct_parameter() {
    assert_agrees_with_interpreter(
        r#"
struct P { x: int, y: int }
fn sum(p: P) -> int { return p.x + p.y; }
fn main() { print(sum(P { x: 3, y: 4 })); }
"#,
    );
}

#[test]
fn nested_struct_fields() {
    assert_agrees_with_interpreter(
        r#"
struct Inner { v: int }
struct Outer { i: Inner, k: int }
fn main() { let o = Outer { i: Inner { v: 9 }, k: 1 }; print(o.i.v); print(o.k); }
"#,
    );
}

#[test]
fn fields_keep_their_declared_type() {
    assert_agrees_with_interpreter(
        r#"
struct M { a: int, b: float, c: string }
fn main() { let m = M { a: 1, b: 2.5, c: "hi" }; print(m.a); print(m.b); print(m.c); }
"#,
    );
}

#[test]
fn self_resolves_to_the_impl_type() {
    assert_agrees_with_interpreter(
        r#"
struct S { w: float, name: string }
impl S { fn label(self) -> string { return self.name; } fn width(self) -> float { return self.w; } }
fn main() { let s = S { w: 1.5, name: "boxy" }; print(s.label()); print(s.width()); }
"#,
    );
}

#[test]
fn a_struct_field_holding_an_enum_prints_by_name() {
    assert_agrees_with_interpreter(
        r#"
enum Color { Red, Rgb(int, int, int) }
struct Style { c: Color, name: string }
struct Box { s: Style, n: int }
fn main() {
    let b = Box { s: Style { c: Red, name: "inner" }, n: 7 };
    print(b.n);
    print(b.s.c);
    print("{b.s.name} / {b.s.c}");
}
"#,
    );
}

#[test]
fn an_out_of_range_index_stops_the_program() {
    assert_fails_like_the_interpreter(
        "fn main() {\n    let a = [1, 2, 3];\n    print(a[0]);\n    print(a[10]);\n    print(\"never\");\n}\n",
    );
}

#[test]
fn a_negative_index_is_caught() {
    assert_fails_like_the_interpreter("fn main() {\n    let a = [1, 2];\n    print(a[0 - 1]);\n}\n");
}

#[test]
fn array_get_and_array_set_are_checked() {
    assert_fails_like_the_interpreter("fn main() {\n    let a = [1, 2];\n    print(array_get(a, 5));\n}\n");
    assert_fails_like_the_interpreter("fn main() {\n    let a = [1, 2];\n    let b = array_set(a, 9, 0);\n}\n");
}

#[test]
fn substring_bounds_are_checked_natively() {
    assert_fails_like_the_interpreter("fn main() {\n    print(substring(\"hello\", 2, 99));\n}\n");
    assert_fails_like_the_interpreter("fn main() {\n    print(substring(\"hello\", 4, 1));\n}\n");
}

#[test]
fn indices_in_range_still_work() {
    assert_agrees_with_interpreter(
        r#"
fn main() {
    let a = [10, 20, 30];
    print(a[0]);
    print(a[2]);
    print(array_get(a, 1));
    print(array_get(array_set(a, 1, 99), 1));
    print(substring("hello", 1, 4));
    print(substring("hello", 0, 5));
    print(substring("hello", 3, 3));
}
"#,
    );
}

#[test]
fn an_unmatched_value_stops_the_program() {
    assert_fails_like_the_interpreter(
        "fn main() {\n    let a = [7, 8];\n    print(array_get(a, 0));\n    print(match array_get(a, 0) { 5 => 10, 6 => 20 });\n}\n",
    );
}

#[test]
fn a_match_covering_every_variant_needs_no_wildcard() {
    assert_agrees_with_interpreter(
        r#"
enum S { C(int), R(int, int) }
fn area(s: S) -> int { return match s { C(r) => r * r, R(w, h) => w * h }; }
fn main() { print(area(C(5))); print(area(R(3, 4))); }
"#,
    );
}

#[test]
fn a_wildcard_last_arm_still_catches_everything() {
    assert_agrees_with_interpreter(
        r#"
enum C { R, G, B }
fn f(c: C) -> int { return match c { R => 1, _ => 9 }; }
fn g(n: int) -> int { return match n { 0 => 10, x => x * 2 }; }
fn main() { print(f(R)); print(f(B)); print(g(0)); print(g(21)); }
"#,
    );
}

#[test]
fn booleans_print_as_true_and_false() {
    assert_agrees_with_interpreter(
        r#"
fn big(n: int) -> bool { return n > 100; }
fn main() {
    print(true); print(false);
    print(1 < 2); print(1 == 2);
    print(true && false); print(!true);
    print(contains("hello", "ell"));
    print(big(500)); print(big(1));
    let b = 3 > 1;
    print(b); print(to_string(b));
    let o = Some(1);
    print(o.is_some()); print(o.is_none());
}
"#,
    );
}

#[test]
fn a_match_or_if_yielding_a_string_keeps_its_type() {
    assert_agrees_with_interpreter(
        r#"
fn main() {
    let n = 7;
    print(match n { 7 => "seven", _ => "other" });
    print(if n > 3 { "big" } else { "small" });
    print(if n > 3 { 1.5 } else { 0.25 });
    print(match n { 7 => 2.5, _ => 0.0 });
}
"#,
    );
}

#[test]
fn types_reached_through_other_values() {
    assert_agrees_with_interpreter(
        r#"
enum Color { Red, Rgb(int, int, int) }
struct Style { c: Color, on: bool, w: float }
fn pick() -> Color { return Rgb(1, 2, 3); }
fn main() {
    let s = Style { c: pick(), on: 3 > 1, w: 2.5 };
    print(s.on);
    print(s.c);
    print(s.w);
    let b = match 1 { 1 => 2 > 1, _ => false };
    print(b);
    print(if true { 1 == 1 } else { false });
    let e = match 0 { 0 => Red, _ => pick() };
    print(e);
}
"#,
    );
}

#[test]
fn a_branch_that_opens_blocks_of_its_own() {
    assert_agrees_with_interpreter(
        r#"
fn main() {
    print(match 2 { 2 => if true { "yes" } else { "no" }, _ => "other" });
    print(if true { match 1 { 1 => 10, _ => 20 } } else { 0 });
    print(match 1 { 1 => match 2 { 2 => 1.5, _ => 0.5 }, _ => 0.0 });
}
"#,
    );
}

#[test]
fn parameters_of_every_type() {
    assert_agrees_with_interpreter(
        r#"
struct P { x: int }
fn twice(x: float) -> float { return x * 2.0; }
fn label(s: string) -> string { return s + "!"; }
fn mix(a: int, b: float, c: string, d: bool) -> string {
    if d { return c + to_string(a) + to_string(b); }
    return "off";
}
impl P { fn scaled(self, by: float) -> float { return by * 3.0; } }
fn main() {
    print(twice(1.25));
    print(label("hi"));
    print(mix(1, 2.5, "v=", true));
    print(mix(1, 2.5, "v=", false));
    let p = P { x: 1 };
    print(p.scaled(1.5));
}
"#,
    );
}

#[test]
fn reassigning_a_string_or_float_local() {
    assert_agrees_with_interpreter(
        r#"
fn main() {
    let s = "one";
    print(s);
    s = "two";
    print(s);
    let f = 1.5;
    f = 2.5;
    print(f);
}
"#,
    );
}

#[test]
fn float_strings_keep_their_values_when_several_are_live() {
    assert_agrees_with_interpreter(
        r#"
enum S { Pair(float, float), One(float) }
fn main() {
    let a = to_string(2.5);
    let b = to_string(3.5);
    print(a + "/" + b);
    print(Pair(1.25, 6.75));
    print(One(0.5));
    print("{a} and {b}");
    print(to_string(1.0 / 3.0));
}
"#,
    );
}

#[test]
fn values_built_for_a_print_stay_valid_through_it() {
    assert_agrees_with_interpreter(
        r#"
enum E { V(int) }
struct S { a: string }
macro shout(x) { return "[" + x + "]"; }
fn make(n: int) -> string { return "v" + to_string(n); }
fn main() {
    let s = make(7);
    print(s);
    print(make(8));
    print(s);
    print("outer " + to_string(1) + " " + to_string(2));
    print(S { a: "x" }.a);
    print(V(3));
    let n = 5;
    print(if n > 3 { "big " + to_string(n) } else { "small" });
    print(match n { 5 => "five " + to_string(n), _ => "other" });
    print(shout("hi"));
    let k = shout("kept");
    print(k);
}
"#,
    );
}

#[test]
fn the_arguments_of_a_macro_are_evaluated_once_and_in_order() {
    assert_agrees_with_interpreter(
        r#"
let count = 0;
macro twice(x) { return x + x; }
macro swap(a, b) { return b * 10 + a; }
macro show(a, b) { print(b); print(a); }
macro last(x) { bump(); return x; }
macro none(x) { return 7; }
fn bump() -> int { count = count + 1; return count; }
fn main() {
    print(twice(bump()));
    print(count);
    print(swap(bump(), bump()));
    show(bump(), bump());
    let k = last(count);
    print(k);
    print(none(bump()));
    print(twice(twice(bump())));
    let a = 1;
    let b = 2;
    print(swap(b, a));
    show(b, a);
    last(5);
    print(count);
}
"#,
    );
}

#[test]
fn statements_that_print_show_the_same() {
    assert_agrees_with_interpreter(
        r#"
fn main() {
    let x = 1;
    print(x);
    while x < 100 { x = x * 3; }
    print(x);
    print(x > 100 && !(x == 243));
    let low = 0 - 9223372036854775807 - 1;
    print(low);
    if x == 243 { x = 0; }
    print(x == 0);
}
"#,
    );
    assert_fails_like_the_interpreter(
        "fn main() {\n    let x = 0;\n    print(5);\n    print(7 / x);\n}\n",
    );
}

#[test]
fn macros_run_natively_as_they_are_interpreted() {
    assert_agrees_with_interpreter(
        r#"
let base = 100;
macro m(x) { let y = x + 1; return y * 2; }
macro sign(x) { if x < 0 { return 0 - 1; } return 1; }
macro join(a, b) { let c = a + b; return c + c; }
macro shift(x) { base = base + x; return base; }
macro count(n) { let i = 0; let total = 0; while i < n { total = total + i; i = i + 1; } return total; }
macro fact(n) { if n <= 1 { return 1; } else { return n * fact(n - 1); } }
macro twice(f) { return join(f, f); }
macro show(x) { print("<" + to_string(x) + ">"); }
macro hello() { return "hello"; }
fn half(n: int) -> int { return sign(n) * n / 2; }
fn main() {
    let y = 7;
    let a = m(3);
    print(a);
    print(m(m(y)));
    print(sign(0 - 5));
    print(sign(5));
    print(join(1, 2));
    print(join("a", "b"));
    print(twice("x") + "!");
    print(twice(4) + 1);
    print(shift(5));
    print(shift(y));
    print(base);
    print(count(5));
    print(fact(6));
    show(y);
    show("text");
    print(hello() + " " + to_string(half(10)));
    let base = 3;
    print(shift(base));
}
"#,
    );
    assert_agrees_with_interpreter(
        "macro m(x) { let y = x + 1; return y * 2; } fn main() { let a = m(3); print(a); }",
    );
    assert_fails_like_the_interpreter(
        "macro part(a, b) {\n    let c = a;\n    return c / b;\n}\nfn main() {\n    print(part(6, 3));\n    print(part(1, 0));\n}\n",
    );
}

#[test]
fn a_macro_whose_result_has_no_type_is_refused() {
    let cases = [
        "macro odd(x) { if x < 0 { return 1; } } fn main() { print(odd(3)); }",
        "macro odd(x) { if x < 0 { return 1; } return \"a\"; } fn main() { print(odd(3)); }",
        "macro odd(x) { return x - \"a\"; } fn main() { print(odd(3)); }",
    ];
    for src in cases {
        let got = compile_to_module(&program(src), "t.zr", src).unwrap_err();
        assert_eq!(got, "no type for what a macro gives: odd");
    }
}

#[test]
fn two_names_for_one_value_both_stay_valid() {
    assert_agrees_with_interpreter(
        r#"
struct P { x: int, y: int }
enum E { V(string), N }
fn keep(s: string) -> string { return s; }
fn build(n: int) -> P { return P { x: n, y: n + 1 }; }
fn main() {
    let a = "one" + "!";
    let b = a;
    print(a); print(b);
    let p = build(3);
    print(p.x); print(p.y);
    let s = keep(a);
    print(s); print(a);
    let e = V("payload" + "!");
    print(e);
    let arr = ["x" + "1", "y" + "2"];
    print(arr[0]); print(arr[1]);
    let i = 0;
    while i < 3 { let inner = "loop" + to_string(i); print(inner); i = i + 1; }
    print(a); print(b); print(s);
}
"#,
    );
}

#[test]
fn a_string_constant_is_never_freed() {
    assert_agrees_with_interpreter(
        r#"
fn main() {
    let i = 0;
    while i < 3 { let s = "constant"; print(s); i = i + 1; }
    let t = "kept";
    let u = t;
    print(t); print(u);
}
"#,
    );
}

#[test]
fn a_value_owned_by_an_aggregate_outlives_its_local() {
    assert_agrees_with_interpreter(
        r#"
struct Box { s: string, n: int }
fn wrap() -> Box { let inner = "held" + "!"; return Box { s: inner, n: 1 }; }
fn main() { let b = wrap(); print(b.s); print(b.n); print(b.s); }
"#,
    );
}

#[test]
fn a_generic_function_prints_the_same_from_either_backend() {
    assert_agrees_with_interpreter(
        r#"
fn id<T>(x: T) -> T { return x; }
fn main() {
    print(id(5));
    print(id("hi"));
    print(id(2.5));
    print(id(true));
}
"#,
    );
}

#[test]
fn specialised_copies_do_not_share_a_call_site() {
    assert_agrees_with_interpreter(
        r#"
fn id<T>(x: T) -> T { return x; }
fn twice<T>(x: T) -> T { let a: T = id(x); return id(a); }
fn main() {
    print(twice("deep"));
    print(twice(4));
    print(twice(1.5));
}
"#,
    );
}

#[test]
fn generic_values_are_released_like_any_other() {
    assert_agrees_with_interpreter(
        r#"
fn id<T>(x: T) -> T { return x; }
fn main() {
    let i = 0;
    let last = "";
    while i < 200 {
        last = id(id("value") + to_string(i));
        i = i + 1;
    }
    print(last);
}
"#,
    );
}

#[test]
fn arrays_print_their_elements() {
    assert_agrees_with_interpreter(
        r#"
fn main() {
    print([1, 2, 3]);
    print([true, false]);
    print([1.5, 2.0]);
    print(["a", "b"]);
    print([0]);
    print([-1, -22]);
    print([[1, 2], [3, 4]]);
}
"#,
    );
}

#[test]
fn an_array_reaches_to_string_and_interpolation_too() {
    assert_agrees_with_interpreter(
        r#"
fn main() {
    let xs = [10, 20];
    print(to_string(xs));
    print("xs = {xs}");
    print(to_string(xs) + "!");
}
"#,
    );
}

#[test]
fn structs_print_their_fields_in_declaration_order() {
    assert_agrees_with_interpreter(
        r#"
struct Inner { a: int, b: string }
struct Outer { name: string, inner: Inner }
fn main() {
    let o = Outer { name: "o", inner: Inner { a: 1, b: "two" } };
    print(o);
    print(to_string(o));
    print([o, o]);
}
"#,
    );
}

#[test]
fn a_struct_literal_may_list_its_fields_in_any_order() {
    assert_agrees_with_interpreter(
        r#"
struct P { x: int, y: int }
fn main() {
    let p = P { y: 20, x: 10 };
    print(p.x);
    print(p.y);
    print(p);
}
"#,
    );
}

#[test]
fn printing_an_array_in_a_loop_does_not_accumulate() {
    assert_agrees_with_interpreter(
        r#"
fn main() {
    let xs = [1.5, 2.5, 3.5];
    let i = 0;
    let last = "";
    while i < 500 {
        last = to_string(xs);
        i = i + 1;
    }
    print(last);
}
"#,
    );
}

#[test]
fn an_option_payload_prints_as_what_it_is() {
    assert_agrees_with_interpreter(
        r#"
struct P { x: int, y: int }
fn main() {
    print(Some(1.5));
    print(Some("hi"));
    print(Some(true));
    print(Some([1, 2]));
    print(Some(P { x: 1, y: 2 }));
    print(None);
    print([Some(1.5), None]);
}
"#,
    );
}

#[test]
fn a_result_payload_prints_as_what_it_is() {
    assert_agrees_with_interpreter(
        r#"
fn main() {
    print(Ok(2.5));
    print(Err("bad"));
    print(to_string(Ok(1.5)));
    print("r = {Ok(3.5)}");
}
"#,
    );
}

#[test]
fn a_payload_type_survives_a_function_boundary() {
    assert_agrees_with_interpreter(
        r#"
fn maybe(n: int) -> Option<float> {
    if n > 0 { return Some(1.5); }
    return None;
}
fn show(o: Option<string>) -> int {
    print(o);
    return 0;
}
fn main() {
    print(maybe(1));
    print(maybe(0));
    show(Some("through a parameter"));
}
"#,
    );
}

#[test]
fn unwrap_and_match_read_the_payload_back_as_its_type() {
    assert_agrees_with_interpreter(
        r#"
fn main() {
    let o = Some(3.5);
    print(o.unwrap());
    print(match o { Some(v) => v, None => 0.0 });
    let r = Ok(2.5);
    print(r.unwrap());
}
"#,
    );
}

#[test]
fn a_range_is_a_value_that_prints() {
    assert_agrees_with_interpreter(
        r#"
fn main() {
    let r = 1..4;
    print(r);
    print(1..4);
    print(to_string(2..5));
    print("r = {r}");
    print([1..2, 3..9]);
}
"#,
    );
}

#[test]
fn a_loop_walks_a_range_it_was_handed() {
    assert_agrees_with_interpreter(
        r#"
fn span(n: int) -> range { return 0..n; }
fn main() {
    let r = 1..4;
    for i in r { print(i); }
    for j in 0..3 { print(j); }
    for k in 3 { print(k); }
    for m in span(2) { print(m); }
}
"#,
    );
}

#[test]
fn a_loop_walks_an_array() {
    assert_agrees_with_interpreter(
        r#"
fn main() {
    for x in [10, 20, 30] { print(x); }
    let xs = ["a", "b"];
    for y in xs { print(y); }
    for f in [1.5, 2.5] { print(f); }
    let total = for i in 0..5 {
        if i == 3 { break i * 10; }
    };
    print(total);
}
"#,
    );
}

#[test]
fn a_loop_lets_go_of_what_it_walked() {
    assert_agrees_with_interpreter(
        r#"
fn span(n: int) -> range { return 0..n; }
fn main() {
    let total = 0;
    let i = 0;
    while i < 300 {
        for m in span(2) { total = total + m; }
        for n in [1, 2, 3] { total = total + n; }
        for s in ["a" + to_string(i), "c"] { total = total + len(s); }
        i = i + 1;
    }
    print(total);
}
"#,
    );
}

#[test]
fn strings_compare_by_their_characters() {
    assert_agrees_with_interpreter(
        r#"
fn main() {
    let x = "hello";
    print(x == "hello");
    print(x == "world");
    print(x != "world");
    print("a" + "b" == "ab");
    print("" == "");
}
"#,
    );
}

#[test]
fn strings_order_the_way_they_sort() {
    assert_agrees_with_interpreter(
        r#"
fn main() {
    print("a" < "b");
    print("b" > "a");
    print("a" <= "a");
    print("a" >= "b");
    print("abc" > "ab");
    for n in ["carol", "alice", "bob"] {
        if n < "c" { print(n); }
    }
}
"#,
    );
}

#[test]
fn a_string_pattern_matches_by_its_characters() {
    assert_agrees_with_interpreter(
        r#"
fn classify(s: string) -> string {
    return match s {
        "a" => "first",
        "b" | "c" => "middle",
        _ => "other",
    };
}
fn main() {
    print(classify("a"));
    print(classify("b"));
    print(classify("c"));
    print(classify("z"));
    print(match "a" + "b" { "ab" => "joined", _ => "no" });
}
"#,
    );
}

#[test]
fn comparing_keeps_neither_side() {
    assert_agrees_with_interpreter(
        r#"
fn main() {
    let hits = 0;
    let i = 0;
    while i < 500 {
        if "v" + to_string(i) == "v7" { hits = hits + 1; }
        if to_string(i) < "2" { hits = hits + 1; }
        i = i + 1;
    }
    print(hits);
}
"#,
    );
}

#[test]
fn break_means_the_same_thing_on_both_backends() {
    assert_agrees_with_interpreter(
        r#"
fn main() {
    let i = 0;
    while i < 5 { print(i); i = i + 1; break; }
    print("after while");
    for j in 0..5 {
        if j == 2 { break; }
        print(j);
    }
    print("after for");
    for a in 0..2 {
        for b in 0..3 {
            if b == 1 { break; }
            print(a * 10 + b);
        }
    }
    print("after nested");
    for s in ["a", "b", "c"] {
        if s == "b" { break; }
        print(s);
    }
    let n = 0;
    let w = while n < 100 { n = n + 1; break n * 2; };
    print(w);
    print(n);
}
"#,
    );
}

#[test]
fn a_let_inside_a_block_is_the_blocks_own() {
    assert_agrees_with_interpreter(
        r#"
fn main() {
    let x = 1;
    if true {
        let x = 2;
        if true {
            let x = 3;
            print(x);
        }
        print(x);
    }
    print(x);
    let s = "outer";
    while true {
        let s = "inner";
        print(s);
        break;
    }
    print(s);
    for i in 0..2 {
        let s = "loop";
        print(s);
    }
    print(s);
}
"#,
    );
}

#[test]
fn an_else_branch_is_a_block_too() {
    assert_agrees_with_interpreter(
        r#"
fn main() {
    let tag = "outer";
    if 1 > 2 {
        let tag = "then";
        print(tag);
    } else {
        let tag = "else";
        print(tag);
    }
    print(tag);
}
"#,
    );
}

#[test]
fn a_match_arm_binding_stays_in_its_arm() {
    assert_agrees_with_interpreter(
        r#"
fn main() {
    let v = "outer";
    print(match Some(1) { Some(v) => "bound", None => "no" });
    print(v);
    let n = 7;
    print(match Some(2) { Some(n) => n, None => 0 });
    print(n);
}
"#,
    );
}

#[test]
fn a_string_declared_inside_an_if_is_released() {
    assert_agrees_with_interpreter(
        r#"
fn main() {
    let n = 0;
    while n < 500 {
        if n % 2 == 0 {
            let s = "x" + to_string(n);
            n = n + len(s);
        } else {
            n = n + 1;
        }
    }
    print(n);
}
"#,
    );
}

#[test]
fn each_type_gets_its_own_method() {
    assert_agrees_with_interpreter(
        r#"
struct A { n: int }
struct B { n: int }
trait Show { fn show(self) -> string; }
impl Show for A { fn show(self) -> string { return "A"; } }
impl Show for B { fn show(self) -> string { return "B"; } }
fn main() {
    print(A { n: 1 }.show());
    print(B { n: 2 }.show());
}
"#,
    );
}

#[test]
fn two_methods_of_one_name_may_return_different_types() {
    assert_agrees_with_interpreter(
        r#"
struct P { n: int }
struct Q { n: float }
impl P { fn get(self) -> int { return self.n; } }
impl Q { fn get(self) -> float { return self.n; } }
fn main() {
    print(P { n: 3 }.get());
    print(Q { n: 1.5 }.get());
}
"#,
    );
}

#[test]
fn an_inherent_impl_still_dispatches() {
    assert_agrees_with_interpreter(
        r#"
struct C { n: int }
impl C {
    fn double(self) -> int { return self.n * 2; }
    fn plus(self, k: int) -> int { return self.n + k; }
}
fn main() {
    let c = C { n: 5 };
    print(c.double());
    print(c.plus(3));
    print(c.double() + c.plus(1));
}
"#,
    );
}

#[test]
fn a_frame_value_survives_a_function_that_retains_it() {
    assert_agrees_with_interpreter(
        r#"
fn id<T>(x: T) -> T { return x; }
fn main() {
    print(id([1, 2]));
    print(id(Some(1.5)));
    print(id("s"));
    print(id(1..3));
}
"#,
    );
}

#[test]
fn a_returned_parameter_is_the_same_value_going_in() {
    assert_agrees_with_interpreter(
        r#"
struct P { x: int, y: int }
fn keep(s: string) -> string { return s; }
fn hold(o: Option<float>) -> Option<float> { return o; }
fn same(p: P) -> P { return p; }
fn main() {
    print(keep("a" + "b"));
    print(hold(Some(2.5)));
    print(same(P { x: 1, y: 2 }));
    print(keep(keep(keep("through three"))));
}
"#,
    );
}

#[test]
fn unwrap_on_none_stops_the_program() {
    assert_fails_like_the_interpreter(
        r#"
fn main() {
    print("before");
    let o = None;
    print(o.unwrap());
}
"#,
    );
}

#[test]
fn unwrap_on_err_says_so() {
    assert_fails_like_the_interpreter(
        r#"
fn f(n: int) -> Result<int, string> {
    if n > 0 { return Ok(n); }
    return Err("bad");
}
fn main() {
    print("before");
    print(f(0).unwrap());
}
"#,
    );
}

#[test]
fn unwrap_on_a_value_still_hands_it_over() {
    assert_agrees_with_interpreter(
        r#"
fn main() {
    print(Some(5).unwrap());
    print(Ok(2.5).unwrap());
    print(Some("s").unwrap());
    let o = Some(1.5);
    if o.is_some() { print(o.unwrap()); }
}
"#,
    );
}

#[test]
fn dividing_by_zero_stops_the_program() {
    assert_fails_like_the_interpreter(
        r#"
fn main() {
    print("before");
    let n = 0;
    print(7 / n);
}
"#,
    );
}

#[test]
fn remainder_by_zero_stops_the_program() {
    assert_fails_like_the_interpreter(
        r#"
fn main() {
    print("before");
    let n = 0;
    print(7 % n);
}
"#,
    );
}

#[test]
fn division_that_can_be_done_agrees() {
    assert_agrees_with_interpreter(
        r#"
fn main() {
    print(7 / 2);
    print(0 - 7 / 2);
    print(7 % 3);
    print(0 - 7 % 3);
    print(1.0 / 0.0);
    print(0.0 / 0.0);
    let d = 3;
    print(100 / d);
}
"#,
    );
}

#[test]
fn printing_a_float_allocates_nothing() {
    let m = compiled("fn main() { print(1.5); }\n");
    assert!(
        m.done.iter().any(|f| f.slots.iter().any(|s| s.name == "float_buf")),
        "the scratch buffer is not on the frame"
    );
    assert_eq!(calls(&m, "malloc"), 0, "printing a float still allocates");
}

#[test]
fn a_float_string_that_escapes_is_still_allocated() {
    let m = compiled("fn main() { let s = to_string(1.5); print(s); }\n");
    assert!(calls(&m, "malloc") > 0, "an escaping float string was not copied out");
}

#[test]
fn a_printed_expression_allocates_nothing() {
    for src in [
        r#"fn main() { print("a" + "b"); }"#,
        r#"fn main() { let i = 1; print("n is {i}"); }"#,
        r#"fn main() { print(substring("hello world", 0, 5)); }"#,
        r#"enum E { V(int) } fn main() { print(V(1)); }"#,
    ] {
        let m = compiled(&format!("{}\n", src));
        assert_eq!(calls(&m, "malloc"), 0, "still allocates: {}", src);
        assert!(calls(&m, "llvm.stackrestore") > 0, "frame space is never released: {}", src);
    }
}

#[test]
fn a_value_that_leaves_a_function_is_still_allocated() {
    let m = compiled("fn make(n: int) -> string { return \"v\" + to_string(n); }\nfn main() { print(make(7)); }\n");
    assert!(calls(&m, "malloc") > 0, "a returned string was put on the frame");
}

#[test]
fn values_bound_in_a_loop_are_reclaimed() {
    for src in [
        "struct P { x: int, y: int }\nfn main() { let i = 0; while i < 3 { let p = P { x: i, y: i }; i = i + 1; } }\n",
        "fn main() { let i = 0; while i < 3 { let s = \"a\" + \"b\"; i = i + 1; } }\n",
        "fn main() { let i = 0; while i < 3 { let a = [1, 2, 3, 4]; i = i + 1; } }\n",
        "enum E { V(int) }\nfn main() { let i = 0; while i < 3 { let e = V(i); i = i + 1; } }\n",
    ] {
        let m = compiled(src);
        assert!(calls(&m, "zarrin.release") > 0, "nothing is released:\n{}", src);
        // the slot itself belongs to the frame, not to each iteration
        for f in &m.done {
            for inst in &f.insts {
                let in_body = f.blocks[inst.block].name == "while_body";
                assert!(!(in_body && matches!(inst.op, Op::Reserve(_))), "a slot is allocated per iteration");
            }
        }
        let o = execute(src);
        assert_eq!((o.live, o.made), (0, 3), "{}", src);
    }
}

#[test]
fn integer_arithmetic_agrees_up_to_the_ends() {
    let edges = [i64::MIN, i64::MIN + 1, -4294967296, -3, -2, -1, 0, 1, 2, 3, 4294967296, i64::MAX - 1, i64::MAX];
    let written = |n: i64| {
        if n == i64::MIN {
            "(-9223372036854775807 - 1)".to_string()
        } else if n < 0 {
            format!("(0 - {})", -n)
        } else {
            format!("{}", n)
        }
    };
    for op in ["+", "-", "*", "/", "%"] {
        for a in edges {
            for b in edges {
                let src = format!(
                    "fn f(a: int, b: int) -> int {{ return a {} b; }}\nfn main() {{ print(f({}, {})); }}\n",
                    op,
                    written(a),
                    written(b)
                );
                let (native, interpreted) = (execute(&src), interpret(&src));
                assert_eq!(native.code, interpreted.code, "{}", src);
                assert_eq!(native.stdout, interpreted.stdout, "{}", src);
                assert_eq!(first_line(&native.stderr), first_line(&interpreted.stderr), "{}", src);
            }
        }
    }
}

#[test]
fn an_overflow_stops_native_code_too() {
    let max = "9223372036854775807";
    assert_fails_like_the_interpreter(&format!("fn main() {{ let x = {}; print(1); print(x + 1); }}", max));
    assert_fails_like_the_interpreter(&format!("fn main() {{ let x = 0 - {}; print(x - 2); }}", max));
    assert_fails_like_the_interpreter(&format!("fn main() {{ let x = {}; print(x * 2); }}", max));
    assert_fails_like_the_interpreter(&format!("fn main() {{ let x = 0 - {} - 1; print(-x); }}", max));
}

#[test]
fn truth_values_are_no_numbers_in_native_code_either() {
    for op in ["+", "-", "*", "/", "%", "<", "<=", ">", ">="] {
        assert_fails_like_the_interpreter(&format!(
            "fn main() {{ print(1); let a = true; let b = false; print(a {} b); }}",
            op
        ));
    }
    for op in ["==", "!=", "&&", "||"] {
        assert_agrees_with_interpreter(&format!(
            "fn main() {{ let a = true; let b = false; print(a {} b); print(b {} b); print(a {} a); }}",
            op, op, op
        ));
    }
}

#[test]
fn variables_branches_and_loops_agree_in_both_backends() {
    assert_agrees_with_interpreter(
        r#"
fn main() {
    let x = 1;
    let more = true;
    let rounds = 0;
    while more {
        let y = x * 3;
        if y % 2 == 0 { x = y / 2; } else { x = y + 1; }
        let x = 100;
        rounds = rounds + 1;
        more = rounds < 10 && x == 100;
        print(y);
    }
    if x > 100 { let x = 7; print(x); } else { print(0 - 1); }
    if x { print(x); }
    print(rounds);
}
"#,
    );
}

#[test]
fn a_condition_that_fails_in_a_later_round_stops_both_backends() {
    let src = "fn main() {\n    let n = 2;\n    while 10 / n > 0 {\n        print(n);\n        n = n - 1;\n    }\n}\n";
    let (native, interpreted) = (execute(src), interpret(src));
    assert_eq!(native.stdout, "2\n1\n");
    assert_eq!(interpreted.stdout, "2\n1\n");
    assert_eq!(native.code, interpreted.code);
    assert_eq!(first_line(&native.stderr), "error: division by zero");
    assert_eq!(first_line(&interpreted.stderr), "error: division by zero");
}

// ---- variables of the program ----

#[test]
fn variables_of_the_program_are_seen_by_native_functions() {
    assert_agrees_with_interpreter(
        "let g = 42;\nfn show() { print(g); }\nfn main() { print(g); show(); }\n",
    );
    assert_agrees_with_interpreter(
        "let counter = 0;\nfn bump(x: int) -> int { counter = counter + x; return counter; }\nfn main() { print(bump(5)); print(bump(3)); print(counter); }\n",
    );
    assert_agrees_with_interpreter(
        r#"
let name = "a";
let xs = [1, 2];
let ratio = 1.5;
fn add(s: string) { name = name + s; xs = [len(name)]; ratio = ratio * 2.0; }
print(name);
add("b");
let name = name + "!";
if xs[0] == 2 { let name = "inner"; print(name); }
fn main() { add("c"); print(name); print(xs); print(ratio); let name = "local"; print(name); }
"#,
    );
}

#[test]
fn statements_at_top_level_run_before_main() {
    assert_agrees_with_interpreter("print(1);\nfn main() { print(3); }\nprint(2);\n");
    assert_agrees_with_interpreter("fn f() { print(7); }\nlet i = 0;\nwhile i < 2 { f(); i = i + 1; }\n");
}

#[test]
fn a_trailing_expression_at_top_level_does_not_keep_main_from_running() {
    assert_agrees_with_interpreter("fn f() { print(7); }\nfn main() { print(1); print(2); }\nf()\n");
    assert_agrees_with_interpreter("fn main() { print(1); let i = 0; while i < 3 { print(i); i = i + 1; } }\nprint(5 + 6)\n");
}

#[test]
fn a_variable_of_the_program_is_not_there_before_its_declaration() {
    assert_fails_like_the_interpreter("f();\nlet g = 1;\nfn f() { print(g); }\nfn main() { print(2); }\n");
}

// ---- where native code used to answer otherwise ----

#[test]
fn a_split_without_a_delimiter_gives_single_characters() {
    assert_agrees_with_interpreter(
        r#"fn main() { print(split("aé☃", "")); print(array_len(split("", ""))); for p in split("xy", "") { print("<" + p + ">"); } }"#,
    );
}

#[test]
fn a_trim_takes_all_white_space() {
    assert_agrees_with_interpreter(
        "fn main() { print(\"<\" + trim(\"\u{3000}\u{2003} a\u{a0}b \u{85}\u{2028}\\t\") + \">\"); print(\"<\" + trim(\"\u{1680}\u{202f}\u{205f}\") + \">\"); print(\"<\" + trim(\"é\u{200a}\") + \">\"); print(\"<\" + trim(\"\") + \">\"); }",
    );
}

#[test]
fn values_without_operations_stop_both_backends() {
    for (decl, a, b) in [
        ("enum E { A, B }", "A", "B"),
        ("enum F { V(int) }", "V(1)", "V(1)"),
        ("struct P { x: int }", "P { x: 1 }", "P { x: 2 }"),
        ("", "[1]", "[1]"),
        ("", "0..2", "0..2"),
    ] {
        for op in ["==", "!=", "<", "+"] {
            assert_fails_like_the_interpreter(&format!(
                "{}\nfn main() {{ print(1); let a = {}; let b = {}; print(a {} b); }}\n",
                decl, a, b, op
            ));
        }
    }
    for op in ["-", "*", "/", "%"] {
        assert_fails_like_the_interpreter(&format!("fn main() {{ print(1); print(\"a\" {} \"b\"); }}\n", op));
    }
}

#[test]
fn a_loop_without_a_value_gives_nothing() {
    assert_agrees_with_interpreter(
        "fn main() { print(while false { }); let r = for i in 0..2 { print(i); }; print(r); }",
    );
}

#[test]
fn a_return_is_the_value_of_the_loop_it_stands_in() {
    assert_agrees_with_interpreter(
        "fn f() -> int { let r = while true { return 5; }; print(r); return 6; }\nfn g() -> int { let t = for i in 0..9 { for j in 0..9 { if i + j == 3 { return 10 * i + j; } } }; print(t); return 1; }\nfn main() { print(f()); print(g()); }",
    );
}

#[test]
fn a_variant_counts_before_a_variable_of_the_same_name() {
    assert_agrees_with_interpreter(
        "enum E { Red, Green }\nfn main() { let Red = 5; print(Red); Red = 6; print(Red); let e = Green; print(e); }",
    );
}

#[test]
fn conditions_of_every_type_agree() {
    assert_agrees_with_interpreter(
        r#"
enum E { A, B }
enum F { V(int), W }
fn nothing() { }
fn main() {
    if "" { print(1); } else { print(2); }
    if "a" + "b" { print(3); }
    if 0.0 { print(4); } else { print(5); }
    if (A) { print(6); } else { print(7); }
    if (W) { print(8); }
    if [1] { print(9); }
    if nothing() { print(10); } else { print(11); }
    print(if "x" { "yes" } else { "no" });
    let n = 0;
    while "go" { n = n + 1; if n == 3 { break; } }
    print(n);
    print(match n { 3 if "" => "guarded", _ => "other" });
}
"#,
    );
}

#[test]
fn an_assignment_to_no_variable_is_forgotten() {
    assert_agrees_with_interpreter(
        r#"fn main() { x = 1; y = "a" + "b"; let x = 2; print(x); if true { z = [1, 2]; } print("end"); }"#,
    );
}

#[test]
fn a_failure_after_a_call_is_reported_where_the_call_stands() {
    let src = "fn f() -> int {\n    let a = 1;\n    return a;\n}\nfn main() {\n    let xs = [1];\n    print(f() + xs[5]);\n}\n";
    let (native, interpreted) = (execute(src), interpret(src));
    assert!(interpreted.stderr.contains("prog.zr:7"), "{}", interpreted.stderr);
    assert_eq!(native.stderr, interpreted.stderr);
    let src = "fn main() {\n    let n = 2;\n    while 10 / n > 0 {\n        n = n - 1;\n    }\n}\n";
    let (native, interpreted) = (execute(src), interpret(src));
    assert!(interpreted.stderr.contains("prog.zr:3"), "{}", interpreted.stderr);
    assert_eq!(native.stderr, interpreted.stderr);
}

#[test]
fn no_number_is_itself_to_neither_backend() {
    assert_agrees_with_interpreter(
        "fn main() { let zero = 0.0; let n = zero / zero; print(n == n); print(n != n); print(n < n); }",
    );
}
