//! Evaluation: walk the instruction tree against a byte tape.
//!
//! The evaluator owns a fixed 30,000-cell zero-initialized byte tape and a
//! data pointer. Walking a [`AstNode::Loop`] node re-evaluates its owned
//! child sequence while the current cell is nonzero, against the same shared
//! tape and pointer. Byte input and output flow through an [`IoBuffer`]
//! rather than live streams, so the whole evaluation is a function of the
//! instruction tree, the starting state, and the supplied input bytes.
//!
//! The defining semantics is the fuel-indexed big-step function
//! [`eval_nodes`]: `Some(outcome)` when the walk finishes within the given
//! step budget, `None` when it does not. A source program that loops forever
//! has outcome `None` under every budget. [`Interpreter::execute`] takes the
//! budget as an argument and returns exactly the outcome the semantics
//! assigns to it; a caller that wants unbounded execution re-runs with ever
//! larger budgets. The outcome of a finishing walk does not depend on the
//! budget ([`lemma_eval_node_mono`], [`lemma_eval_nodes_mono`]), so the
//! budget is an artifact of bounding the walk, not part of the meaning of a
//! program.

use crate::parser::AstNode;
use vstd::prelude::*;

verus! {

/// Number of cells on the tape.
pub const TAPE_LEN: usize = 30000;

/// A fatal evaluation error: the data pointer left the tape. The run aborts
/// at once; no recovery is attempted.
#[derive(Clone, Copy, Debug, PartialEq, Eq, Structural)]
pub enum EvalError {
    /// The pointer was moved left of cell zero.
    PointerUnderflow,
    /// The pointer was moved at or beyond the tape length.
    PointerOverflow,
}

/// The mathematical state of one evaluation: the tape, the data pointer,
/// the count of consumed input bytes, and the output emitted so far.
pub struct Machine {
    pub tape: Seq<u8>,
    pub ptr: int,
    pub next_in: int,
    pub out: Seq<u8>,
}

/// The tape of a fresh evaluator: all 30,000 cells zero.
pub open spec fn zero_tape() -> Seq<u8> {
    Seq::new(TAPE_LEN as nat, |i: int| 0u8)
}

/// The state of a fresh evaluator before any instruction has run.
pub open spec fn initial_machine() -> Machine {
    Machine { tape: zero_tape(), ptr: 0, next_in: 0, out: Seq::<u8>::empty() }
}

/// One added to a byte, wrapping over the 8-bit range (255 + 1 is 0).
pub open spec fn wrapping_inc(b: u8) -> u8 {
    ((b + 1) % 256) as u8
}

/// One subtracted from a byte, wrapping over the 8-bit range (0 - 1 is 255).
pub open spec fn wrapping_dec(b: u8) -> u8 {
    ((b + 255) % 256) as u8
}

/// The byte a read instruction stores: the next unconsumed input byte, or
/// zero once the input is exhausted (end-of-input reads as an empty line).
pub open spec fn input_byte_at(input: Seq<u8>, next_in: int) -> u8 {
    if 0 <= next_in < input.len() {
        input[next_in]
    } else {
        0
    }
}

/// The big-step outcome of one instruction node under a step budget.
///
/// Each loop pass and each walked sequence element costs one unit of fuel;
/// `None` means the walk did not finish within the budget. Every non-loop
/// instruction finishes at once, so its outcome ignores the fuel.
pub open spec fn eval_node(
    node: AstNode,
    input: Seq<u8>,
    st: Machine,
    fuel: nat,
) -> Option<Result<Machine, EvalError>>
    decreases fuel,
{
    match node {
        AstNode::IncrementPointer => Some(
            if st.ptr + 1 < TAPE_LEN {
                Ok(Machine { ptr: st.ptr + 1, ..st })
            } else {
                Err(EvalError::PointerOverflow)
            },
        ),
        AstNode::DecrementPointer => Some(
            if st.ptr >= 1 {
                Ok(Machine { ptr: st.ptr - 1, ..st })
            } else {
                Err(EvalError::PointerUnderflow)
            },
        ),
        AstNode::IncrementValue => Some(
            Ok(Machine { tape: st.tape.update(st.ptr, wrapping_inc(st.tape[st.ptr])), ..st }),
        ),
        AstNode::DecrementValue => Some(
            Ok(Machine { tape: st.tape.update(st.ptr, wrapping_dec(st.tape[st.ptr])), ..st }),
        ),
        AstNode::OutputChar => Some(Ok(Machine { out: st.out.push(st.tape[st.ptr]), ..st })),
        AstNode::InputChar => Some(
            Ok(
                Machine {
                    tape: st.tape.update(st.ptr, input_byte_at(input, st.next_in)),
                    next_in: if st.next_in < input.len() {
                        st.next_in + 1
                    } else {
                        st.next_in
                    },
                    ..st
                },
            ),
        ),
        AstNode::Loop(body) => {
            if st.tape[st.ptr] == 0 {
                Some(Ok(st))
            } else if fuel == 0 {
                None
            } else {
                match eval_nodes(body@, input, st, (fuel - 1) as nat) {
                    None => None,
                    Some(Err(e)) => Some(Err(e)),
                    Some(Ok(st2)) => eval_node(node, input, st2, (fuel - 1) as nat),
                }
            }
        },
    }
}

/// The big-step outcome of an instruction sequence, left to right, under a
/// step budget as in [`eval_node`].
pub open spec fn eval_nodes(
    nodes: Seq<AstNode>,
    input: Seq<u8>,
    st: Machine,
    fuel: nat,
) -> Option<Result<Machine, EvalError>>
    decreases fuel,
{
    if nodes.len() == 0 {
        Some(Ok(st))
    } else if fuel == 0 {
        None
    } else {
        match eval_node(nodes[0], input, st, (fuel - 1) as nat) {
            None => None,
            Some(Err(e)) => Some(Err(e)),
            Some(Ok(st1)) => eval_nodes(
                nodes.subrange(1, nodes.len() as int),
                input,
                st1,
                (fuel - 1) as nat,
            ),
        }
    }
}

/// A finishing walk of one node keeps its outcome under any larger budget:
/// the budget bounds the walk but never changes its result.
pub proof fn lemma_eval_node_mono(node: AstNode, input: Seq<u8>, st: Machine, f1: nat, f2: nat)
    requires
        f1 <= f2,
        eval_node(node, input, st, f1) is Some,
    ensures
        eval_node(node, input, st, f2) == eval_node(node, input, st, f1),
    decreases f1,
{
    match node {
        AstNode::Loop(body) => {
            if st.tape[st.ptr] != 0 {
                let b = eval_nodes(body@, input, st, (f1 - 1) as nat);
                lemma_eval_nodes_mono(body@, input, st, (f1 - 1) as nat, (f2 - 1) as nat);
                if let Some(Ok(st2)) = b {
                    lemma_eval_node_mono(node, input, st2, (f1 - 1) as nat, (f2 - 1) as nat);
                }
            }
        },
        _ => {},
    }
}

/// A finishing walk of a sequence keeps its outcome under any larger budget.
pub proof fn lemma_eval_nodes_mono(
    nodes: Seq<AstNode>,
    input: Seq<u8>,
    st: Machine,
    f1: nat,
    f2: nat,
)
    requires
        f1 <= f2,
        eval_nodes(nodes, input, st, f1) is Some,
    ensures
        eval_nodes(nodes, input, st, f2) == eval_nodes(nodes, input, st, f1),
    decreases f1,
{
    if nodes.len() > 0 {
        let h = eval_node(nodes[0], input, st, (f1 - 1) as nat);
        lemma_eval_node_mono(nodes[0], input, st, (f1 - 1) as nat, (f2 - 1) as nat);
        if let Some(Ok(st1)) = h {
            lemma_eval_nodes_mono(
                nodes.subrange(1, nodes.len() as int),
                input,
                st1,
                (f1 - 1) as nat,
                (f2 - 1) as nat,
            );
        }
    }
}

/// The semantic outcome denoted by an evaluator result together with the
/// machine state it left behind.
pub open spec fn lift_outcome(r: Result<(), EvalError>, m: Machine) -> Result<Machine, EvalError> {
    match r {
        Ok(_) => Ok(m),
        Err(e) => Err(e),
    }
}

/// The semantic outcome denoted by a possibly budget-exhausted evaluator
/// result together with the machine state it left behind.
pub open spec fn lift_bounded_outcome(
    r: Option<Result<(), EvalError>>,
    m: Machine,
) -> Option<Result<Machine, EvalError>> {
    match r {
        None => None,
        Some(x) => Some(lift_outcome(x, m)),
    }
}

/// The byte-stream collaborator of one evaluation: the input bytes supplied
/// to the read instruction, a cursor over them, and the output collected.
#[derive(Debug)]
pub struct IoBuffer {
    /// Input bytes, one consumed per executed read instruction.
    pub input: Vec<u8>,
    /// Position of the next unconsumed input byte.
    pub cursor: usize,
    /// Output bytes, one appended per executed output instruction.
    pub output: Vec<u8>,
}

impl IoBuffer {
    /// The cursor never passes the end of the input.
    pub open spec fn wf(self) -> bool {
        self.cursor <= self.input@.len()
    }

    /// A buffer over the given input bytes, with nothing consumed and
    /// nothing emitted yet.
    pub fn new(input: Vec<u8>) -> (r: IoBuffer)
        ensures
            r.wf(),
            r.input@ == input@,
            r.cursor == 0,
            r.output@ == Seq::<u8>::empty(),
    {
        IoBuffer { input, cursor: 0, output: Vec::new() }
    }
}

/// The tree-walking evaluator: a fixed-length byte tape and a data pointer,
/// both owned for the lifetime of one full evaluation run.
#[derive(Debug)]
pub struct Interpreter {
    tape: Vec<u8>,
    pointer: usize,
}

impl Interpreter {
    /// The tape contents.
    pub closed spec fn tape_view(self) -> Seq<u8> {
        self.tape@
    }

    /// The data pointer.
    pub closed spec fn pointer_view(self) -> int {
        self.pointer as int
    }

    /// The tape has exactly its fixed length and the pointer is on it.
    pub open spec fn wf(self) -> bool {
        self.tape_view().len() == TAPE_LEN && 0 <= self.pointer_view() < TAPE_LEN
    }

    /// The machine state formed by this evaluator and its byte streams.
    pub open spec fn machine(self, io: IoBuffer) -> Machine {
        Machine {
            tape: self.tape_view(),
            ptr: self.pointer_view(),
            next_in: io.cursor as int,
            out: io.output@,
        }
    }

    /// A fresh evaluator: 30,000 zero cells, pointer at cell zero.
    pub fn new() -> (r: Interpreter)
        ensures
            r.wf(),
            r.tape_view() == zero_tape(),
            r.pointer_view() == 0,
    {
        let mut tape: Vec<u8> = Vec::new();
        let mut i: usize = 0;
        while i < TAPE_LEN
            invariant
                i <= TAPE_LEN,
                tape@.len() == i,
                forall|k: int| 0 <= k < i ==> tape@[k] == 0u8,
            decreases TAPE_LEN - i,
        {
            tape.push(0u8);
            i = i + 1;
        }
        proof {
            assert(tape@ =~= zero_tape());
        }
        Interpreter { tape, pointer: 0 }
    }

    /// The value of the cell at `index`.
    pub fn cell_at(&self, index: usize) -> (b: u8)
        requires
            self.wf(),
            index < TAPE_LEN,
        ensures
            b == self.tape_view()[index as int],
    {
        self.tape[index]
    }

    /// The current position of the data pointer.
    pub fn pointer(&self) -> (p: usize)
        ensures
            p as int == self.pointer_view(),
    {
        self.pointer
    }

    /// Walk one instruction node under a step budget.
    fn execute_node(&mut self, node: &AstNode, io: &mut IoBuffer, fuel: u64) -> (r: Option<
        Result<(), EvalError>,
    >)
        requires
            old(self).wf(),
            old(io).wf(),
        ensures
            final(self).wf(),
            final(io).wf(),
            final(io).input@ == old(io).input@,
            eval_node(*node, old(io).input@, old(self).machine(*old(io)), fuel as nat)
                == lift_bounded_outcome(r, final(self).machine(*final(io))),
        decreases fuel, node,
    {
        match node {
            AstNode::IncrementPointer => {
                if self.pointer < TAPE_LEN - 1 {
                    self.pointer = self.pointer + 1;
                    Some(Ok(()))
                } else {
                    Some(Err(EvalError::PointerOverflow))
                }
            },
            AstNode::DecrementPointer => {
                if self.pointer >= 1 {
                    self.pointer = self.pointer - 1;
                    Some(Ok(()))
                } else {
                    Some(Err(EvalError::PointerUnderflow))
                }
            },
            AstNode::IncrementValue => {
                let b = self.tape[self.pointer];
                let nb: u8 = if b == 255 {
                    0
                } else {
                    b + 1
                };
                proof {
                    assert(nb == wrapping_inc(b));
                }
                self.tape[self.pointer] = nb;
                Some(Ok(()))
            },
            AstNode::DecrementValue => {
                let b = self.tape[self.pointer];
                let nb: u8 = if b == 0 {
                    255
                } else {
                    b - 1
                };
                proof {
                    assert(nb == wrapping_dec(b));
                }
                self.tape[self.pointer] = nb;
                Some(Ok(()))
            },
            AstNode::OutputChar => {
                let b = self.tape[self.pointer];
                io.output.push(b);
                Some(Ok(()))
            },
            AstNode::InputChar => {
                let b: u8 = if io.cursor < io.input.len() {
                    let x = io.input[io.cursor];
                    io.cursor = io.cursor + 1;
                    x
                } else {
                    0
                };
                self.tape[self.pointer] = b;
                Some(Ok(()))
            },
            AstNode::Loop(body) => {
                let ghost input = io.input@;
                let ghost st_enter = self.machine(*io);
                let mut fuel_left: u64 = fuel;
                while self.tape[self.pointer] != 0
                    invariant
                        *node == AstNode::Loop(*body),
                        self.wf(),
                        io.wf(),
                        input == old(io).input@,
                        st_enter == old(self).machine(*old(io)),
                        io.input@ == input,
                        fuel_left <= fuel,
                        eval_node(*node, input, st_enter, fuel as nat) == eval_node(
                            *node,
                            input,
                            self.machine(*io),
                            fuel_left as nat,
                        ),
                    decreases fuel_left,
                {
                    let ghost cur = self.machine(*io);
                    if fuel_left == 0 {
                        proof {
                            assert(eval_node(*node, input, cur, fuel_left as nat) is None);
                        }
                        return None;
                    }
                    let rb = self.execute_seq(body, io, fuel_left - 1);
                    proof {
                        assert(eval_node(*node, input, cur, fuel_left as nat) == match eval_nodes(
                            body@,
                            input,
                            cur,
                            (fuel_left - 1) as nat,
                        ) {
                            None => None::<Result<Machine, EvalError>>,
                            Some(Err(e)) => Some(Err(e)),
                            Some(Ok(st2)) => eval_node(*node, input, st2, (fuel_left - 1) as nat),
                        });
                    }
                    match rb {
                        None => {
                            return None;
                        },
                        Some(Err(e)) => {
                            return Some(Err(e));
                        },
                        Some(Ok(_)) => {
                            proof {
                                assert(eval_node(*node, input, cur, fuel_left as nat) == eval_node(
                                    *node,
                                    input,
                                    self.machine(*io),
                                    (fuel_left - 1) as nat,
                                ));
                            }
                            fuel_left = fuel_left - 1;
                        },
                    }
                }
                Some(Ok(()))
            },
        }
    }

    /// Walk an instruction sequence left to right under a step budget.
    fn execute_seq(&mut self, nodes: &Vec<AstNode>, io: &mut IoBuffer, fuel: u64) -> (r: Option<
        Result<(), EvalError>,
    >)
        requires
            old(self).wf(),
            old(io).wf(),
        ensures
            final(self).wf(),
            final(io).wf(),
            final(io).input@ == old(io).input@,
            eval_nodes(nodes@, old(io).input@, old(self).machine(*old(io)), fuel as nat)
                == lift_bounded_outcome(r, final(self).machine(*final(io))),
        decreases fuel, nodes,
    {
        let ghost input = io.input@;
        let ghost st0 = self.machine(*io);
        let n = nodes.len();
        let mut fuel_left: u64 = fuel;
        let mut i: usize = 0;
        proof {
            assert(nodes@.subrange(0, n as int) =~= nodes@);
        }
        while i < n
            invariant
                self.wf(),
                io.wf(),
                input == old(io).input@,
                st0 == old(self).machine(*old(io)),
                io.input@ == input,
                n == nodes@.len(),
                0 <= i <= n,
                fuel_left <= fuel,
                eval_nodes(nodes@, input, st0, fuel as nat) == eval_nodes(
                    nodes@.subrange(i as int, n as int),
                    input,
                    self.machine(*io),
                    fuel_left as nat,
                ),
            decreases n - i,
        {
            let ghost rest = nodes@.subrange(i as int, n as int);
            proof {
                assert(rest.len() > 0);
                assert(rest[0] == nodes@[i as int]);
                assert(rest.subrange(1, rest.len() as int) =~= nodes@.subrange(
                    i + 1,
                    n as int,
                ));
            }
            if fuel_left == 0 {
                return None;
            }
            let node = &nodes[i];
            let rn = self.execute_node(node, io, fuel_left - 1);
            match rn {
                None => {
                    return None;
                },
                Some(Err(e)) => {
                    return Some(Err(e));
                },
                Some(Ok(_)) => {
                    fuel_left = fuel_left - 1;
                    i = i + 1;
                },
            }
        }
        proof {
            assert(nodes@.subrange(n as int, n as int) =~= Seq::<AstNode>::empty());
        }
        Some(Ok(()))
    }

    /// Execute an instruction sequence against this evaluator's tape and
    /// pointer, reading and writing bytes through `io`, within a step
    /// budget.
    ///
    /// The result is exactly the outcome the defining semantics
    /// [`eval_nodes`] assigns to the starting state under the given budget:
    /// the final tape, pointer, consumed input and emitted output on
    /// completion; the out-of-bounds error if the pointer left the tape; or
    /// `None` if the walk did not finish within the budget (in which case a
    /// larger budget can only turn the outcome into the program's one
    /// fuel-independent result, never change it).
    pub fn execute(&mut self, ast_nodes: &Vec<AstNode>, io: &mut IoBuffer, fuel: u64) -> (r:
        Option<Result<(), EvalError>>)
        requires
            old(self).wf(),
            old(io).wf(),
        ensures
            final(self).wf(),
            final(io).wf(),
            final(io).input@ == old(io).input@,
            eval_nodes(ast_nodes@, old(io).input@, old(self).machine(*old(io)), fuel as nat)
                == lift_bounded_outcome(r, final(self).machine(*final(io))),
    {
        self.execute_seq(ast_nodes, io, fuel)
    }
}

/// The byte a read instruction stores for one input line: the low eight
/// bits of the line's first character, or zero for an empty line.
pub open spec fn line_byte(line: Seq<char>) -> u8 {
    if line.len() == 0 {
        0
    } else {
        line[0] as u8
    }
}

/// Convert one input line to the byte the read instruction stores.
pub fn input_line_byte(line: &str) -> (b: u8)
    ensures
        b == line_byte(line@),
{
    if line.unicode_len() == 0 {
        0
    } else {
        #[verifier::truncate]
        (line.get_char(0) as u8)
    }
}

/// The output character denoted by one emitted byte: the Unicode scalar
/// with that code point (0 through 255), not a raw encoded byte.
pub fn byte_to_char(b: u8) -> (c: char)
    ensures
        c == b as char,
{
    b as char
}

} // verus!
