//! End-to-end behavior: compile a source program, interpret the emitted
//! assembly with a small x86-64 subset interpreter, and compare the value
//! `main` returns with evaluating the program by hand.

use std::collections::HashMap;

use minicc::compile;

/// The machine state of the interpreter: the registers the generated
/// code uses, a byte-addressed stack, and the result of the last
/// comparison.
struct Machine {
    regs: HashMap<String, u64>,
    mem: HashMap<u64, u8>,
    cmp: Option<(i64, i64)>,
}

const STACK_TOP: u64 = 0x0010_0000;

impl Machine {
    fn new() -> Machine {
        let mut regs = HashMap::new();
        for r in ["rax", "rdi", "rsi", "rdx", "rcx", "r8", "r9", "rbp", "rsp"] {
            regs.insert(r.to_string(), 0);
        }
        regs.insert("rsp".to_string(), STACK_TOP);
        Machine { regs, mem: HashMap::new(), cmp: None }
    }

    fn get(&self, r: &str) -> u64 {
        *self.regs.get(r).unwrap_or_else(|| panic!("unknown register {}", r))
    }

    fn set(&mut self, r: &str, v: u64) {
        self.regs.insert(r.to_string(), v);
    }

    fn store(&mut self, addr: u64, bytes: usize, v: u64) {
        for k in 0..bytes {
            self.mem.insert(addr + k as u64, (v >> (8 * k)) as u8);
        }
    }

    fn load(&mut self, addr: u64, bytes: usize) -> u64 {
        let mut v: u64 = 0;
        for k in 0..bytes {
            let b = *self.mem.get(&(addr + k as u64)).unwrap_or(&0);
            v |= (b as u64) << (8 * k);
        }
        v
    }

    fn push(&mut self, v: u64) {
        let rsp = self.get("rsp") - 8;
        self.set("rsp", rsp);
        self.store(rsp, 8, v);
    }

    fn pop(&mut self) -> u64 {
        let rsp = self.get("rsp");
        let v = self.load(rsp, 8);
        self.set("rsp", rsp + 8);
        v
    }

    /// Widens a 4-byte register name to its 8-byte sibling, with the
    /// store width it implies.
    fn reg_width(r: &str) -> (&'static str, usize) {
        match r {
            "edi" => ("rdi", 4),
            "esi" => ("rsi", 4),
            "edx" => ("rdx", 4),
            "ecx" => ("rcx", 4),
            "r8d" => ("r8", 4),
            "r9d" => ("r9", 4),
            "rax" => ("rax", 8),
            "rdi" => ("rdi", 8),
            "rsi" => ("rsi", 8),
            "rdx" => ("rdx", 8),
            "rcx" => ("rcx", 8),
            "r8" => ("r8", 8),
            "r9" => ("r9", 8),
            "rbp" => ("rbp", 8),
            "rsp" => ("rsp", 8),
            other => panic!("unknown register {}", other),
        }
    }
}

/// Runs `main` of the given assembly text and returns the low 8 bits of
/// the value it leaves in `rax`, as a host would see the exit code.
fn run_main(text: &str) -> u8 {
    let lines: Vec<&str> = text.lines().collect();
    let mut labels: HashMap<String, usize> = HashMap::new();
    for (i, line) in lines.iter().enumerate() {
        if line.ends_with(':') && !line.starts_with(' ') {
            labels.insert(line[..line.len() - 1].to_string(), i);
        }
    }
    let mut m = Machine::new();
    const DONE: u64 = u64::MAX;
    m.push(DONE);
    let mut pc: usize = *labels.get("main").expect("no main in output") + 1;
    let mut steps: u64 = 0;
    loop {
        steps += 1;
        assert!(steps < 10_000_000, "interpreter ran away");
        assert!(pc < lines.len(), "fell off the end of the text");
        let line = lines[pc];
        pc += 1;
        let t = line.trim();
        if t.is_empty()
            || t.starts_with('#')
            || t.starts_with(".intel_syntax")
            || t.starts_with(".global")
            || line.ends_with(':')
        {
            continue;
        }
        let (op, rest) = match t.find(' ') {
            Some(k) => (&t[..k], t[k + 1..].trim()),
            None => (t, ""),
        };
        match op {
            "push" => {
                if let Ok(v) = rest.parse::<u64>() {
                    m.push(v);
                } else {
                    let v = m.get(rest);
                    m.push(v);
                }
            }
            "pop" => {
                let v = m.pop();
                m.set(rest, v);
            }
            "mov" => {
                let (dst, src) = rest.split_once(", ").expect("mov operands");
                if dst == "rax" && src == "[rax]" {
                    let a = m.get("rax");
                    let v = m.load(a, 8);
                    m.set("rax", v);
                } else if dst == "[rax]" {
                    let a = m.get("rax");
                    let (wide, width) = Machine::reg_width(src);
                    let v = m.get(wide);
                    m.store(a, width, v);
                } else if let Some(off) = dst.strip_prefix("[rbp-").and_then(|s| s.strip_suffix("]"))
                {
                    let off: u64 = off.parse().expect("frame offset");
                    let a = m.get("rbp") - off;
                    let (wide, width) = Machine::reg_width(src);
                    let v = m.get(wide);
                    m.store(a, width, v);
                } else {
                    let v = m.get(src);
                    m.set(dst, v);
                }
            }
            "movsxd" => {
                assert_eq!(rest, "rax, dword ptr [rax]");
                let a = m.get("rax");
                let v = m.load(a, 4) as u32;
                m.set("rax", v as i32 as i64 as u64);
            }
            "sub" => {
                let (dst, src) = rest.split_once(", ").expect("sub operands");
                let s = if let Ok(v) = src.parse::<u64>() { v } else { m.get(src) };
                let d = m.get(dst);
                m.set(dst, d.wrapping_sub(s));
            }
            "add" => {
                let (dst, src) = rest.split_once(", ").expect("add operands");
                let s = m.get(src);
                let d = m.get(dst);
                m.set(dst, d.wrapping_add(s));
            }
            "imul" => {
                let (dst, src) = rest.split_once(", ").expect("imul operands");
                let s = m.get(src) as i64;
                let d = m.get(dst) as i64;
                m.set(dst, d.wrapping_mul(s) as u64);
            }
            "cqo" => {
                let v = m.get("rax") as i64;
                m.set("rdx", if v < 0 { u64::MAX } else { 0 });
            }
            "idiv" => {
                let d = m.get("rax") as i64;
                let s = m.get(rest) as i64;
                assert!(s != 0, "division by zero in interpreted code");
                m.set("rax", (d / s) as u64);
                m.set("rdx", (d % s) as u64);
            }
            "cmp" => {
                let (a, b) = rest.split_once(", ").expect("cmp operands");
                let av = m.get(a) as i64;
                let bv = if let Ok(v) = b.parse::<i64>() { v } else { m.get(b) as i64 };
                m.cmp = Some((av, bv));
            }
            "sete" | "setne" | "setl" | "setle" => {
                assert_eq!(rest, "al");
                let (a, b) = m.cmp.expect("set without cmp");
                let bit = match op {
                    "sete" => a == b,
                    "setne" => a != b,
                    "setl" => a < b,
                    _ => a <= b,
                };
                let rax = m.get("rax") & !0xff;
                m.set("rax", rax | if bit { 1 } else { 0 });
            }
            "movzb" => {
                assert_eq!(rest, "rax, al");
                let v = m.get("rax") & 0xff;
                m.set("rax", v);
            }
            "je" => {
                let (a, b) = m.cmp.expect("je without cmp");
                if a == b {
                    pc = *labels.get(rest).expect("unknown label") + 1;
                }
            }
            "jmp" => {
                pc = *labels.get(rest).expect("unknown label") + 1;
            }
            "call" => {
                m.push(pc as u64);
                pc = *labels.get(rest).expect("unknown function") + 1;
            }
            "ret" => {
                let r = m.pop();
                if r == DONE {
                    return (m.get("rax") & 0xff) as u8;
                }
                pc = r as usize;
            }
            other => panic!("unknown instruction {:?} in line {:?}", other, line),
        }
    }
}

fn compile_ok(src: &str) -> String {
    match compile(src.to_string()) {
        Ok(text) => text,
        Err(e) => panic!("compile failed: {}", e.message()),
    }
}

fn run_src(src: &str) -> u8 {
    run_main(&compile_ok(src))
}

#[test]
fn return_zero() {
    assert_eq!(run_src("int main(){ return 0; }"), 0);
}

#[test]
fn additive_expression() {
    assert_eq!(run_src("int main(){ return 5+20-4; }"), 21);
}

#[test]
fn locals_and_precedence() {
    assert_eq!(run_src("int main(){ int a; int b; a=3; b=5*6-8; return a+b/2; }"), 14);
}

#[test]
fn for_loop_sum() {
    assert_eq!(run_src("int main(){ int i; int s; s=0; for(i=0;i<=10;i=i+1) s=s+i; return s; }"), 55);
}

#[test]
fn function_call() {
    assert_eq!(run_src("int ret3(){ return 3; } int main(){ return ret3()+ret3(); }"), 6);
}

#[test]
fn pointer_write_through() {
    assert_eq!(run_src("int main(){ int x; int *y; x=3; y=&x; *y=5; return x; }"), 5);
}

#[test]
fn commuting_independent_statements() {
    let a = run_src("int main(){ int x; int y; x=4; y=9; return x+y; }");
    let b = run_src("int main(){ int x; int y; y=9; x=4; return x+y; }");
    assert_eq!(a, b);
    assert_eq!(a, 13);
}

#[test]
fn while_loop() {
    assert_eq!(run_src("int main(){ int i; i=0; while(i<7) i=i+1; return i; }"), 7);
}

#[test]
fn if_else_branches() {
    assert_eq!(run_src("int main(){ if(1) return 2; else return 3; }"), 2);
    assert_eq!(run_src("int main(){ if(0) return 2; else return 3; }"), 3);
    assert_eq!(run_src("int main(){ if(0) return 2; return 9; }"), 9);
}

#[test]
fn nested_if_else() {
    let src = "int main(){ int a; a=2; if(a==1) return 10; else if(a==2) { if(a<3) return 20; else return 30; } else return 40; }";
    assert_eq!(run_src(src), 20);
}

#[test]
fn comparisons() {
    assert_eq!(run_src("int main(){ return 3<5; }"), 1);
    assert_eq!(run_src("int main(){ return 5<3; }"), 0);
    assert_eq!(run_src("int main(){ return 5>3; }"), 1);
    assert_eq!(run_src("int main(){ return 3>=3; }"), 1);
    assert_eq!(run_src("int main(){ return 2<=1; }"), 0);
    assert_eq!(run_src("int main(){ return 4==4; }"), 1);
    assert_eq!(run_src("int main(){ return 4!=4; }"), 0);
}

#[test]
fn unary_minus_lowering() {
    assert_eq!(run_src("int main(){ return 10+-3; }"), 7);
    assert_eq!(run_src("int main(){ return -3+10; }"), 7);
}

#[test]
fn six_parameters_in_order() {
    let src = "int pick(int a, int b, int c, int d, int e, int f){ return a*1+b*2+c*3+d*4+e*5+f*6; } int main(){ return pick(1,2,3,4,5,6); }";
    assert_eq!(run_src(src), 91);
}

#[test]
fn sizeof_values() {
    assert_eq!(run_src("int main(){ int x; return sizeof x; }"), 4);
    assert_eq!(run_src("int main(){ int *y; return sizeof y; }"), 8);
    assert_eq!(run_src("int main(){ int x; return sizeof(x+3); }"), 4);
}

#[test]
fn assignment_chains() {
    assert_eq!(run_src("int main(){ int a; int b; a=b=7; return a+b; }"), 14);
}

#[test]
fn division_truncates() {
    assert_eq!(run_src("int main(){ return 7/2; }"), 3);
    assert_eq!(run_src("int main(){ return 7-9/3; }"), 4);
}

#[test]
fn block_statements() {
    assert_eq!(run_src("int main(){ int s; s=0; { s=s+1; s=s+2; } return s; }"), 3);
}

#[test]
fn large_literal_exit_code() {
    // the host sees the low 8 bits of the returned value
    assert_eq!(run_src("int main(){ return 4294967295; }"), 255);
}

#[test]
fn for_without_header_parts() {
    assert_eq!(run_src("int main(){ int i; i=0; for(;;) if(i==4) return i; else i=i+1; }"), 4);
}

#[test]
fn precedence_mix() {
    assert_eq!(run_src("int main(){ return 2+3*4-10/2; }"), 9);
    assert_eq!(run_src("int main(){ return (2+3)*4; }"), 20);
}

#[test]
fn nested_call_arguments() {
    let src = "int add2(int a, int b){ return a+b; } int main(){ return add2(add2(1,2),3); }";
    assert_eq!(run_src(src), 6);
}

#[test]
fn pointer_to_pointer() {
    let src = "int main(){ int x; int *p; int **q; x=7; p=&x; q=&p; return **q; }";
    assert_eq!(run_src(src), 7);
}
