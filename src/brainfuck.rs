//! A brainfuck interpreter: source clean-up and checking, the jump table, and
//! one instruction at a time over thirty thousand wrapping byte cells. Input
//! and output bytes are handed across each step.
use std::collections::HashMap;
use vstd::prelude::*;
use vstd::string::{StrSliceExecFns, StringExecFns};

verus! {

broadcast use vstd::std_specs::hash::group_hash_axioms;

/// The number of memory cells.
pub const MEMORY_SIZE: usize = 30000;

/// `a + b` reduced into `0..modulo`.
pub open spec fn spec_add_mod(a: int, b: int, modulo: int) -> int {
    (a + b) % modulo
}

/// Whether `c` is left out of a program: a space, a newline or a tab.
pub open spec fn is_blank(c: char) -> bool {
    c == ' ' || c == '\n' || c == '\t'
}

/// `s` without its spaces, newlines and tabs.
pub open spec fn strip_blanks(s: Seq<char>) -> Seq<char>
    decreases s.len(),
{
    if s.len() == 0 {
        s
    } else if is_blank(s.last()) {
        strip_blanks(s.drop_last())
    } else {
        strip_blanks(s.drop_last()).push(s.last())
    }
}

/// One of the eight instructions.
pub open spec fn is_instruction(c: char) -> bool {
    c == '>' || c == '<' || c == '+' || c == '-' || c == '.' || c == ',' || c == '[' || c == ']'
}

/// Every character of `s` is an instruction.
pub open spec fn all_instructions(s: Seq<char>) -> bool {
    forall|i: int| 0 <= i < s.len() ==> is_instruction(#[trigger] s[i])
}

/// Where the `]` at `i` jumps back to: the nearest `[` before it, or the
/// start of the program if there is none. Brackets are not matched in pairs.
pub open spec fn jump_target(code: Seq<char>, i: int) -> int
    decreases i,
{
    if i <= 0 {
        0
    } else if code[i - 1] == '[' {
        i - 1
    } else {
        jump_target(code, i - 1)
    }
}

/// The jump table of `code`: each `]` with its jump target.
pub open spec fn is_jump_table(code: Seq<char>, m: Map<usize, usize>) -> bool {
    &&& forall|k: usize| #[trigger] m.contains_key(k) <==> (k < code.len() && code[k as int] == ']')
    &&& forall|k: usize| #[trigger] m.contains_key(k) ==> m[k] == jump_target(code, k as int)
}

proof fn lemma_jump_target_before(code: Seq<char>, i: int)
    ensures
        0 <= jump_target(code, i) <= if i > 0 { i - 1 } else { 0 },
    decreases i,
{
    if i > 0 {
        lemma_jump_target_before(code, i - 1);
    }
}

/// `a + b` reduced into `0..modulo`, the remainder taken non-negative.
pub fn add_mod(a: i32, b: i32, modulo: u32) -> (r: i32)
    requires
        i32::MIN <= a + b <= i32::MAX,
        0 < modulo <= i32::MAX,
    ensures
        r == spec_add_mod(a as int, b as int, modulo as int),
{
    let sum: i32 = a + b;
    let m: i32 = modulo as i32;
    if sum >= 0 {
        sum % m
    } else {
        // The remainder of a negative sum, counted up from the modulus.
        let x: i32 = -(sum + 1);
        let t: i32 = x % m;
        proof {
            vstd::arithmetic::div_mod::lemma_fundamental_div_mod(x as int, m as int);
            let q = x as int / m as int;
            assert(sum as int == (-q - 1) * (m as int) + (m - 1 - t)) by (nonlinear_arith)
                requires
                    x as int == (m as int) * q + t as int,
                    x as int == -(sum as int + 1),
            ;
            vstd::arithmetic::div_mod::lemma_fundamental_div_mod_converse(
                sum as int,
                m as int,
                -q - 1,
                m - 1 - t,
            );
        }
        m - 1 - t
    }
}

/// The program text without spaces, newlines and tabs.
pub fn oneline_code(code: String) -> (r: String)
    ensures
        r@ == strip_blanks(code@),
{
    let mut r = String::new();
    let n = code.as_str().unicode_len();
    let mut i: usize = 0;
    while i < n
        invariant
            n == code@.len(),
            i <= n,
            r@ == strip_blanks(code@.subrange(0, i as int)),
        decreases n - i,
    {
        let c = code.as_str().get_char(i);
        if !(c == ' ' || c == '\n' || c == '\t') {
            r.append(code.as_str().substring_char(i, i + 1));
        }
        proof {
            assert(code@.subrange(0, i + 1).drop_last() =~= code@.subrange(0, i as int));
            assert(code@.subrange(i as int, i + 1) =~= seq![c]);
        }
        i = i + 1;
    }
    assert(code@.subrange(0, n as int) =~= code@);
    r
}

/// Accepts a program made of the eight instructions alone.
pub fn verify_code_characters(oneline_code: &String) -> (r: Result<(), &'static str>)
    ensures
        r is Ok <==> all_instructions(oneline_code@),
        r matches Err(e) ==> e@ == "Source file contains invalid character"@,
{
    let n = oneline_code.as_str().unicode_len();
    let mut i: usize = 0;
    while i < n
        invariant
            n == oneline_code@.len(),
            i <= n,
            forall|k: int| 0 <= k < i ==> is_instruction(#[trigger] oneline_code@[k]),
        decreases n - i,
    {
        let c = oneline_code.as_str().get_char(i);
        if !(c == '>' || c == '<' || c == '+' || c == '-' || c == '.' || c == ',' || c == '['
            || c == ']') {
            return Err("Source file contains invalid character");
        }
        i = i + 1;
    }
    Ok(())
}

/// Maps each `]` of the program to the nearest `[` before it (or to the start).
pub fn build_jump_table(oneline_code: &String) -> (r: Result<HashMap<usize, usize>, &'static str>)
    ensures
        r matches Ok(m) && is_jump_table(oneline_code@, m@),
{
    let mut jump_table: HashMap<usize, usize> = HashMap::new();
    let mut index_last_open_bracket: usize = 0;
    let n = oneline_code.as_str().unicode_len();
    let mut i: usize = 0;
    while i < n
        invariant
            n == oneline_code@.len(),
            i <= n,
            index_last_open_bracket == jump_target(oneline_code@, i as int),
            forall|k: usize| #[trigger] jump_table@.contains_key(k) <==> (k < i
                && oneline_code@[k as int] == ']'),
            forall|k: usize| #[trigger] jump_table@.contains_key(k) ==> jump_table@[k]
                == jump_target(oneline_code@, k as int),
        decreases n - i,
    {
        let c = oneline_code.as_str().get_char(i);
        if c == '[' {
            index_last_open_bracket = i;
        } else if c == ']' {
            jump_table.insert(i, index_last_open_bracket);
        }
        i = i + 1;
    }
    Ok(jump_table)
}

/// The characters of `s`, one by one.
fn chars_of(s: &String) -> (r: Vec<char>)
    ensures
        r@ == s@,
{
    let mut r: Vec<char> = Vec::new();
    let n = s.as_str().unicode_len();
    let mut i: usize = 0;
    while i < n
        invariant
            n == s@.len(),
            i <= n,
            r@ == s@.subrange(0, i as int),
        decreases n - i,
    {
        r.push(s.as_str().get_char(i));
        i = i + 1;
        assert(r@ =~= s@.subrange(0, i as int));
    }
    r
}

/// A program loaded for running, with its memory and pointers.
pub struct Intrepreter {
    code: Vec<char>,
    jump_table: HashMap<usize, usize>,
    memory: Vec<u8>,
    prog_ptr: usize,
    mem_ptr: usize,
    eof: bool,
}

impl Intrepreter {
    /// The program's instructions.
    pub closed spec fn code(&self) -> Seq<char> {
        self.code@
    }

    /// Where each `]` jumps back to.
    pub closed spec fn jumps(&self) -> Map<usize, usize> {
        self.jump_table@
    }

    /// The memory cells.
    pub closed spec fn memory(&self) -> Seq<u8> {
        self.memory@
    }

    /// The index of the next instruction.
    pub closed spec fn prog_ptr(&self) -> usize {
        self.prog_ptr
    }

    /// The index of the current memory cell.
    pub closed spec fn mem_ptr(&self) -> usize {
        self.mem_ptr
    }

    /// Whether input has run out.
    pub closed spec fn eof(&self) -> bool {
        self.eof
    }

    pub open spec fn wf(&self) -> bool {
        &&& all_instructions(self.code())
        &&& is_jump_table(self.code(), self.jumps())
        &&& self.memory().len() == MEMORY_SIZE
        &&& self.mem_ptr() < MEMORY_SIZE
        &&& self.prog_ptr() <= self.code().len()
    }

    /// The spec form of `is_halted`.
    pub open spec fn halted(&self) -> bool {
        self.prog_ptr() == self.code().len() && !self.eof()
    }

    /// Loads a program: blanks are dropped, the rest must be instructions.
    pub fn initiate(code: String) -> (r: Result<Intrepreter, &'static str>)
        ensures
            r is Ok <==> all_instructions(strip_blanks(code@)),
            r matches Err(e) ==> e@ == "Source file contains invalid character"@,
            r matches Ok(it) ==> {
                &&& it.wf()
                &&& it.code() == strip_blanks(code@)
                &&& it.memory() == Seq::new(MEMORY_SIZE as nat, |i: int| 0u8)
                &&& it.prog_ptr() == 0
                &&& it.mem_ptr() == 0
                &&& !it.eof()
            },
    {
        let code = oneline_code(code);
        match verify_code_characters(&code) {
            Ok(()) => {},
            Err(e) => {
                return Err(e);
            },
        }
        let jump_table = match build_jump_table(&code) {
            Ok(t) => t,
            Err(e) => {
                return Err(e);
            },
        };
        let memory: Vec<u8> = vec![0u8; MEMORY_SIZE];
        let it = Intrepreter {
            code: chars_of(&code),
            jump_table,
            memory,
            prog_ptr: 0,
            mem_ptr: 0,
            eof: false,
        };
        assert(it.memory() =~= Seq::new(MEMORY_SIZE as nat, |i: int| 0u8));
        Ok(it)
    }

    /// Whether the program has run to its end.
    pub fn is_halted(&self) -> (r: bool)
        ensures
            r == self.halted(),
    {
        self.prog_ptr == self.code.len() && !self.eof
    }

    /// Whether the program pointer has reached the end of the code. Past the
    /// end of input that is not a halt, and no further step can be taken.
    pub fn past_end(&self) -> (r: bool)
        requires
            self.wf(),
        ensures
            r == (self.prog_ptr() >= self.code().len()),
    {
        self.prog_ptr >= self.code.len()
    }

    /// Whether the next step reads a byte of input.
    pub fn wants_input(&self) -> (r: bool)
        requires
            self.wf(),
        ensures
            r == (self.prog_ptr() < self.code().len() && self.code()[self.prog_ptr() as int] == ','),
    {
        self.prog_ptr < self.code.len() && self.code[self.prog_ptr] == ','
    }

    /// Runs one instruction and returns it with the byte it writes out, if
    /// any; `input` is the byte a `,` reads, or `None` at the end of input.
    /// A halted program returns the NUL character and stays as it is.
    pub fn execute_single(&mut self, input: Option<u8>) -> (r: (char, Option<u8>))
        requires
            old(self).wf(),
            old(self).prog_ptr() < old(self).code().len() || !old(self).eof(),
        ensures
            final(self).wf(),
            final(self).code() == old(self).code(),
            final(self).jumps() == old(self).jumps(),
            old(self).halted() ==> r == ('\0', None::<u8>) && *final(self) == *old(self),
            !old(self).halted() ==> ({
                let ins = old(self).code()[old(self).prog_ptr() as int];
                let mp = old(self).mem_ptr() as int;
                let cell = old(self).memory()[mp];
                &&& r.0 == ins
                &&& r.1 == (if ins == '.' { Some(cell) } else { None })
                &&& final(self).mem_ptr() == (if ins == '>' {
                    spec_add_mod(mp, 1, MEMORY_SIZE as int)
                } else if ins == '<' {
                    spec_add_mod(mp, -1, MEMORY_SIZE as int)
                } else {
                    mp
                })
                &&& final(self).memory() == (if ins == '+' {
                    old(self).memory().update(mp, spec_add_mod(cell as int, 1, 256) as u8)
                } else if ins == '-' {
                    old(self).memory().update(mp, spec_add_mod(cell as int, -1, 256) as u8)
                } else if ins == ',' && input is Some {
                    old(self).memory().update(mp, input->0)
                } else {
                    old(self).memory()
                })
                &&& final(self).eof() == (old(self).eof() || (ins == ',' && input is None))
                &&& final(self).prog_ptr() == (if ins == ']' && cell != 0 {
                    jump_target(old(self).code(), old(self).prog_ptr() as int)
                } else {
                    old(self).prog_ptr() + 1
                })
            }),
    {
        if self.is_halted() {
            return ('\0', None);
        }
        let n = self.code.len();
        assert(self.prog_ptr < n);
        let mut next_inc: usize = self.prog_ptr + 1;
        let instruction = self.code[self.prog_ptr];
        let mut output: Option<u8> = None;
        let cell = self.memory[self.mem_ptr];
        if instruction == '>' {
            self.mem_ptr = add_mod(self.mem_ptr as i32, 1, 30000) as usize;
        } else if instruction == '<' {
            self.mem_ptr = add_mod(self.mem_ptr as i32, -1, 30000) as usize;
        } else if instruction == '+' {
            let v = add_mod(cell as i32, 1, 256) as u8;
            self.memory.set(self.mem_ptr, v);
        } else if instruction == '-' {
            let v = add_mod(cell as i32, -1, 256) as u8;
            self.memory.set(self.mem_ptr, v);
        } else if instruction == '.' {
            output = Some(cell);
        } else if instruction == ',' {
            match input {
                Some(ch) => {
                    self.memory.set(self.mem_ptr, ch);
                },
                None => {
                    self.eof = true;
                },
            }
        } else if instruction == ']' {
            if cell != 0 {
                assert(self.jump_table@.contains_key(self.prog_ptr));
                next_inc = *self.jump_table.get(&self.prog_ptr).unwrap();
                proof {
                    lemma_jump_target_before(self.code@, self.prog_ptr as int);
                }
            }
        }
        self.prog_ptr = next_inc;
        (instruction, output)
    }
}

} // verus!
