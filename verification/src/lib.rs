pub mod tokens;
pub mod machine;
pub mod interpreter;
pub mod interact;

use vstd::prelude::*;
use vstd::string::StringSliceAdditionalSpecFns;
use crate::tokens::{Error, Instruction};

verus! {

/// The instruction, if any, that a source byte denotes; every other byte is a
/// comment.
pub open spec fn instruction_of_byte(b: u8) -> Option<Instruction> {
    if b == 62 {
        Some(Instruction::POINTER_RIGHT)
    } else if b == 60 {
        Some(Instruction::POINTER_LEFT)
    } else if b == 43 {
        Some(Instruction::DATA_INCREMENT)
    } else if b == 45 {
        Some(Instruction::DATA_DECREMENT)
    } else if b == 46 {
        Some(Instruction::DATA_OUTPUT)
    } else if b == 44 {
        Some(Instruction::DATA_INPUT)
    } else if b == 91 {
        Some(Instruction::CONDITIONAL_BEGIN)
    } else if b == 93 {
        Some(Instruction::CONDITIONAL_END)
    } else {
        None
    }
}

pub open spec fn is_command_byte(b: u8) -> bool {
    instruction_of_byte(b) is Some
}

/// The instruction sequence spelled by a byte sequence: each command byte in
/// order, every other byte skipped.
pub open spec fn lex_spec(bytes: Seq<u8>) -> Seq<Instruction>
    decreases bytes.len(),
{
    if bytes.len() == 0 {
        Seq::empty()
    } else {
        let rest = lex_spec(bytes.drop_last());
        match instruction_of_byte(bytes.last()) {
            Some(t) => rest.push(t),
            None => rest,
        }
    }
}

/// Turn source text into the ordered sequence of instructions it spells,
/// silently skipping every byte that is not one of the eight commands.
pub fn lex(string: &str) -> (r: Vec<Instruction>)
    ensures
        r@ == lex_spec(string.spec_bytes()),
{
    let bytes = string.as_bytes();
    let n = bytes.len();
    let mut r: Vec<Instruction> = Vec::new();
    let mut i: usize = 0;
    while i < n
        invariant
            n == bytes@.len(),
            bytes@ == string.spec_bytes(),
            i <= n,
            r@ == lex_spec(bytes@.subrange(0, i as int)),
        decreases n - i,
    {
        let b = bytes[i];
        let t: Option<Instruction> = if b == 62 {
            Some(Instruction::POINTER_RIGHT)
        } else if b == 60 {
            Some(Instruction::POINTER_LEFT)
        } else if b == 43 {
            Some(Instruction::DATA_INCREMENT)
        } else if b == 45 {
            Some(Instruction::DATA_DECREMENT)
        } else if b == 46 {
            Some(Instruction::DATA_OUTPUT)
        } else if b == 44 {
            Some(Instruction::DATA_INPUT)
        } else if b == 91 {
            Some(Instruction::CONDITIONAL_BEGIN)
        } else if b == 93 {
            Some(Instruction::CONDITIONAL_END)
        } else {
            None
        };
        proof {
            let pre = bytes@.subrange(0, i as int);
            let post = bytes@.subrange(0, i + 1 as int);
            assert(post.drop_last() =~= pre);
            assert(post.last() == bytes@[i as int]);
        }
        match t {
            Some(t) => r.push(t),
            None => (),
        }
        i = i + 1;
    }
    proof {
        assert(bytes@.subrange(0, n as int) =~= bytes@);
    }
    r
}

/// Bytes that are not commands never affect the lexed sequence: lexing a text
/// equals lexing only its command bytes.
pub proof fn lemma_lex_ignores_noncommands(bytes: Seq<u8>)
    ensures
        lex_spec(bytes) == lex_spec(bytes.filter(|b: u8| is_command_byte(b))),
    decreases bytes.len(),
{
    reveal(Seq::filter);
    if bytes.len() == 0 {
        assert(bytes.filter(|b: u8| is_command_byte(b)) =~= Seq::<u8>::empty());
    } else {
        lemma_lex_ignores_noncommands(bytes.drop_last());
        let f = bytes.filter(|b: u8| is_command_byte(b));
        if is_command_byte(bytes.last()) {
            assert(f == bytes.drop_last().filter(|b: u8| is_command_byte(b)).push(bytes.last()));
            assert(f.drop_last() =~= bytes.drop_last().filter(|b: u8| is_command_byte(b)));
            assert(f.last() == bytes.last());
        } else {
            assert(f == bytes.drop_last().filter(|b: u8| is_command_byte(b)));
        }
    }
}

/// Stack of still-open bracket positions after scanning the first `n`
/// instructions, oldest first. A close bracket that finds the stack empty is
/// skipped here; `first_excess_close` reports it.
pub open spec fn scan_stack(s: Seq<Instruction>, n: int) -> Seq<int>
    decreases n,
{
    if n <= 0 {
        Seq::empty()
    } else {
        let st = scan_stack(s, n - 1);
        if s[n - 1] == Instruction::CONDITIONAL_BEGIN {
            st.push(n - 1)
        } else if s[n - 1] == Instruction::CONDITIONAL_END && st.len() > 0 {
            st.drop_last()
        } else {
            st
        }
    }
}

/// The first position among the first `n` instructions, if any, where a close
/// bracket appears with no open bracket left to match it.
pub open spec fn first_excess_close(s: Seq<Instruction>, n: int) -> Option<int>
    decreases n,
{
    if n <= 0 {
        None
    } else {
        match first_excess_close(s, n - 1) {
            Some(p) => Some(p),
            None => if s[n - 1] == Instruction::CONDITIONAL_END && scan_stack(s, n - 1).len()
                == 0 {
                Some(n - 1)
            } else {
                None
            },
        }
    }
}

/// All bracket pairs matched within the first `n` instructions, keyed in both
/// directions: each matched begin position maps to its end position and each
/// matched end position to its begin position.
pub open spec fn scan_pairs(s: Seq<Instruction>, n: int) -> Map<int, int>
    decreases n,
{
    if n <= 0 {
        Map::empty()
    } else {
        let m = scan_pairs(s, n - 1);
        let st = scan_stack(s, n - 1);
        if s[n - 1] == Instruction::CONDITIONAL_END && st.len() > 0 {
            m.insert(st.last(), n - 1).insert(n - 1, st.last())
        } else {
            m
        }
    }
}

/// Shape facts about the scan: open positions lie within the scanned prefix
/// and grow left to right, matched pairs lie within the prefix, and a position
/// still on the stack is never already matched.
proof fn lemma_scan_wf(s: Seq<Instruction>, n: int)
    ensures
        forall|k: int|
            0 <= k < scan_stack(s, n).len() ==> 0 <= #[trigger] scan_stack(s, n)[k] < n,
        forall|k1: int, k2: int|
            0 <= k1 < k2 < scan_stack(s, n).len() ==> scan_stack(s, n)[k1] < scan_stack(
                s,
                n,
            )[k2],
        forall|i: int|
            #[trigger] scan_pairs(s, n).contains_key(i) ==> 0 <= i < n && 0 <= scan_pairs(
                s,
                n,
            )[i] < n,
        forall|k: int|
            0 <= k < scan_stack(s, n).len() ==> !scan_pairs(s, n).contains_key(
                #[trigger] scan_stack(s, n)[k],
            ),
        forall|k: int|
            0 <= k < scan_stack(s, n).len() ==> s[#[trigger] scan_stack(s, n)[k]]
                == Instruction::CONDITIONAL_BEGIN,
        forall|i: int|
            #[trigger] scan_pairs(s, n).contains_key(i) ==> scan_pairs(s, n).contains_key(
                scan_pairs(s, n)[i],
            ) && scan_pairs(s, n)[scan_pairs(s, n)[i]] == i && scan_pairs(s, n)[i] != i,
        forall|i: int|
            #[trigger] scan_pairs(s, n).contains_key(i) && i < scan_pairs(s, n)[i] ==> s[i]
                == Instruction::CONDITIONAL_BEGIN && s[scan_pairs(s, n)[i]]
                == Instruction::CONDITIONAL_END,
        forall|i: int|
            #[trigger] scan_pairs(s, n).contains_key(i) && scan_pairs(s, n)[i] < i ==> s[scan_pairs(
                s,
                n,
            )[i]] == Instruction::CONDITIONAL_BEGIN && s[i] == Instruction::CONDITIONAL_END,
    decreases n,
{
    if n <= 0 {
    } else {
        lemma_scan_wf(s, n - 1);
        let st = scan_stack(s, n - 1);
        let pairs = scan_pairs(s, n - 1);
        if s[n - 1] == Instruction::CONDITIONAL_END && st.len() > 0 {
            assert(scan_stack(s, n) == st.drop_last());
            assert(scan_pairs(s, n) == pairs.insert(st.last(), n - 1).insert(n - 1, st.last()));
            assert(0 <= st.last() < n - 1);
            assert forall|i: int| #[trigger] scan_pairs(s, n).contains_key(i) implies 0 <= i < n
                && 0 <= scan_pairs(s, n)[i] < n by {
                if i != n - 1 && i != st.last() {
                    assert(pairs.contains_key(i));
                }
            }
            assert forall|k: int| 0 <= k < scan_stack(s, n).len() implies !scan_pairs(
                s,
                n,
            ).contains_key(#[trigger] scan_stack(s, n)[k]) by {
                assert(scan_stack(s, n)[k] == st[k]);
                assert(st[k] < st[st.len() - 1]);
                assert(st[k] < n - 1);
                assert(!pairs.contains_key(st[k]));
            }
            let b = st.last();
            let e = n - 1;
            assert(s[b] == Instruction::CONDITIONAL_BEGIN);
            assert(!pairs.contains_key(b) && !pairs.contains_key(e));
            assert forall|i: int| #[trigger] scan_pairs(s, n).contains_key(i) implies scan_pairs(
                s,
                n,
            ).contains_key(scan_pairs(s, n)[i]) && scan_pairs(s, n)[scan_pairs(s, n)[i]] == i
                && scan_pairs(s, n)[i] != i by {
                if i != b && i != e {
                    assert(pairs.contains_key(i));
                    assert(scan_pairs(s, n)[i] == pairs[i]);
                    assert(pairs.contains_key(pairs[i]));
                    assert(pairs[i] != b && pairs[i] != e);
                }
            }
        } else if s[n - 1] == Instruction::CONDITIONAL_BEGIN {
            assert(scan_stack(s, n) == st.push(n - 1));
            assert(scan_pairs(s, n) == pairs);
            assert forall|k: int| 0 <= k < scan_stack(s, n).len() implies !scan_pairs(
                s,
                n,
            ).contains_key(#[trigger] scan_stack(s, n)[k]) by {
                if k < st.len() {
                    assert(scan_stack(s, n)[k] == st[k]);
                } else {
                    assert(scan_stack(s, n)[k] == n - 1);
                    assert(!pairs.contains_key(n - 1));
                }
            }
        } else {
            assert(scan_stack(s, n) == st);
            assert(scan_pairs(s, n) == pairs);
        }
    }
}

/// In a prefix with no close bracket in excess, every bracket position is
/// accounted for: either already matched or still open on the stack.
pub proof fn lemma_all_brackets_accounted(s: Seq<Instruction>, n: int)
    requires
        0 <= n <= s.len(),
        first_excess_close(s, n) is None,
    ensures
        forall|i: int|
            0 <= i < n && (s[i] == Instruction::CONDITIONAL_BEGIN || s[i]
                == Instruction::CONDITIONAL_END) ==> scan_pairs(s, n).contains_key(i)
                || scan_stack(s, n).contains(i),
    decreases n,
{
    if n > 0 {
        assert(first_excess_close(s, n - 1) is None);
        lemma_all_brackets_accounted(s, n - 1);
        let st = scan_stack(s, n - 1);
        let pairs = scan_pairs(s, n - 1);
        assert forall|i: int|
            0 <= i < n && (s[i] == Instruction::CONDITIONAL_BEGIN || s[i]
                == Instruction::CONDITIONAL_END) implies scan_pairs(s, n).contains_key(i)
            || scan_stack(s, n).contains(i) by {
            if s[n - 1] == Instruction::CONDITIONAL_BEGIN {
                if i == n - 1 {
                    assert(scan_stack(s, n) == st.push(n - 1));
                    assert(scan_stack(s, n)[st.len() as int] == n - 1);
                    assert(scan_stack(s, n).contains(n - 1));
                } else {
                    if st.contains(i) {
                        let k = choose|k: int| 0 <= k < st.len() && st[k] == i;
                        assert(scan_stack(s, n)[k] == i);
                        assert(scan_stack(s, n).contains(i));
                    }
                }
            } else if s[n - 1] == Instruction::CONDITIONAL_END {
                assert(st.len() > 0);
                assert(scan_stack(s, n) == st.drop_last());
                assert(scan_pairs(s, n) == pairs.insert(st.last(), n - 1).insert(n - 1, st.last()));
                if i == n - 1 {
                    assert(scan_pairs(s, n).contains_key(i));
                } else if i == st.last() {
                    assert(scan_pairs(s, n).contains_key(i));
                } else {
                    if st.contains(i) {
                        let k = choose|k: int| 0 <= k < st.len() && st[k] == i;
                        assert(k < st.len() - 1);
                        assert(scan_stack(s, n)[k] == i);
                        assert(scan_stack(s, n).contains(i));
                    }
                }
            } else {
                assert(scan_stack(s, n) == st);
                assert(scan_pairs(s, n) == pairs);
            }
        }
    }
}

/// Once a close bracket in excess has been found, scanning further never
/// changes which one is reported first.
proof fn lemma_excess_persists(s: Seq<Instruction>, m: int, n: int)
    requires
        0 <= m <= n,
        first_excess_close(s, m) is Some,
    ensures
        first_excess_close(s, n) == first_excess_close(s, m),
    decreases n - m,
{
    if m < n {
        lemma_excess_persists(s, m, n - 1);
    }
}

/// The resolved jump table. `map` has one entry per instruction: the position
/// of the matching partner for a matched bracket, `None` elsewhere. `pending`
/// is the first still-unmatched open bracket, recorded only by tolerant
/// matching; it is never a jump target.
#[derive(Debug)]
pub struct JumpTable {
    pub map: Vec<Option<usize>>,
    pub pending: Option<usize>,
}

impl JumpTable {
    /// The table fits the instruction sequence `s`: one entry per instruction,
    /// every recorded partner in bounds.
    pub open spec fn fits(self, s: Seq<Instruction>) -> bool {
        &&& self.map@.len() == s.len()
        &&& forall|i: int|
            0 <= i < s.len() ==> (#[trigger] self.map@[i] matches Some(j) ==> j < s.len())
    }

    /// The table is exactly what matching resolves for `s`: matched pairs in
    /// both directions, `None` at every other position, and `pending` the
    /// first unmatched open bracket if one is left.
    pub open spec fn resolves(self, s: Seq<Instruction>) -> bool {
        let n = s.len() as int;
        &&& resolved_jump_map(self.map@, s)
        &&& self.pending == (if scan_stack(s, n).len() > 0 {
            Some(scan_stack(s, n)[0] as usize)
        } else {
            None::<usize>
        })
    }
}

/// `map` is exactly the jump map that matching resolves for `s`: the partner
/// position at every matched bracket, `None` at every other position.
pub open spec fn resolved_jump_map(map: Seq<Option<usize>>, s: Seq<Instruction>) -> bool {
    let n = s.len() as int;
    &&& map.len() == n
    &&& forall|i: int|
        0 <= i < n ==> #[trigger] map[i] == (if scan_pairs(s, n).contains_key(i) {
            Some(scan_pairs(s, n)[i] as usize)
        } else {
            None::<usize>
        })
}

/// Resolve the bracket pairs of an instruction sequence into a jump table.
///
/// A close bracket with no open bracket to match is always an error, reported
/// at its 0-based position. Open brackets left unmatched at the end are an
/// error at the first one's 1-based position when `wait` is false; when `wait`
/// is true the first of them is recorded as `pending` and the rest stay
/// unrecorded, to be matched again once more instructions arrive.
pub fn parse(instructions: &Vec<Instruction>, wait: bool) -> (r: Result<JumpTable, Error>)
    ensures
        ({
            let s = instructions@;
            let n = s.len() as int;
            match r {
                Ok(table) => {
                    &&& first_excess_close(s, n) is None
                    &&& (wait || scan_stack(s, n).len() == 0)
                    &&& table.resolves(s)
                    &&& table.fits(s)
                },
                Err(e) => match first_excess_close(s, n) {
                    Some(p) => e == Error::UNMATCHED_CONDITIONAL(p as usize),
                    None => !wait && scan_stack(s, n).len() > 0 && e
                        == Error::UNMATCHED_CONDITIONAL((scan_stack(s, n)[0] + 1) as usize),
                },
            }
        }),
{
    let ghost s = instructions@;
    let n = instructions.len();
    let mut map: Vec<Option<usize>> = Vec::new();
    let mut k: usize = 0;
    while k < n
        invariant
            k <= n,
            map@.len() == k,
            forall|i: int| 0 <= i < k ==> map@[i] is None,
        decreases n - k,
    {
        map.push(None);
        k = k + 1;
    }
    let mut stack: Vec<usize> = Vec::new();
    let mut pos: usize = 0;
    while pos < n
        invariant
            pos <= n,
            n == s.len(),
            instructions@ == s,
            map@.len() == n,
            first_excess_close(s, pos as int) is None,
            stack@.map_values(|x: usize| x as int) == scan_stack(s, pos as int),
            forall|i: int|
                0 <= i < n ==> #[trigger] map@[i] == (if scan_pairs(
                    s,
                    pos as int,
                ).contains_key(i) {
                    Some(scan_pairs(s, pos as int)[i] as usize)
                } else {
                    None::<usize>
                }),
        decreases n - pos,
    {
        let ghost p = pos as int;
        let ghost st = scan_stack(s, p);
        let ghost pairs = scan_pairs(s, p);
        proof {
            lemma_scan_wf(s, p);
            assert(stack@.len() == st.len());
        }
        let t = instructions[pos];
        if t == Instruction::CONDITIONAL_BEGIN {
            stack.push(pos);
            proof {
                assert(scan_stack(s, p + 1) == st.push(p));
                assert(stack@.map_values(|x: usize| x as int) =~= st.push(p));
                assert(scan_pairs(s, p + 1) == pairs);
            }
        } else if t == Instruction::CONDITIONAL_END {
            if stack.len() == 0 {
                proof {
                    assert(st.len() == 0);
                    assert(first_excess_close(s, p + 1) == Some(p));
                    lemma_excess_persists(s, p + 1, n as int);
                }
                return Err(Error::UNMATCHED_CONDITIONAL(pos));
            }
            let b = stack[stack.len() - 1];
            proof {
                assert(stack@.map_values(|x: usize| x as int)[st.len() - 1] == st.last());
                assert(b as int == st.last());
                assert(0 <= st.last() < p);
            }
            stack.truncate(stack.len() - 1);
            map.set(b, Some(pos));
            map.set(pos, Some(b));
            proof {
                let pairs2 = scan_pairs(s, p + 1);
                assert(pairs2 == pairs.insert(b as int, p).insert(p, b as int));
                assert(scan_stack(s, p + 1) == st.drop_last());
                assert(stack@.map_values(|x: usize| x as int) =~= st.drop_last());
                assert(first_excess_close(s, p + 1) is None);
                assert forall|i: int| 0 <= i < n implies #[trigger] map@[i] == (if pairs2.contains_key(
                    i,
                ) {
                    Some(pairs2[i] as usize)
                } else {
                    None::<usize>
                }) by {
                    if i == p {
                        assert(map@[i] == Some(b));
                        assert(pairs2[p] == b as int);
                    } else if i == b as int {
                        assert(map@[i] == Some(pos));
                        assert(pairs2[b as int] == p);
                    } else {
                        assert(map@[i] == (if pairs.contains_key(i) {
                            Some(pairs[i] as usize)
                        } else {
                            None::<usize>
                        }));
                        assert(pairs2.contains_key(i) == pairs.contains_key(i));
                    }
                }
            }
        } else {
            proof {
                assert(scan_stack(s, p + 1) == st);
                assert(scan_pairs(s, p + 1) == pairs);
                assert(first_excess_close(s, p + 1) is None);
            }
        }
        pos = pos + 1;
    }
    proof {
        lemma_scan_wf(s, n as int);
    }
    if stack.len() > 0 {
        let first = stack[0];
        proof {
            assert(stack@.map_values(|x: usize| x as int)[0] == scan_stack(s, n as int)[0]);
            assert(first as int == scan_stack(s, n as int)[0]);
            assert(0 <= scan_stack(s, n as int)[0] < n);
        }
        if !wait {
            return Err(Error::UNMATCHED_CONDITIONAL(first + 1));
        }
        return Ok(JumpTable { map, pending: Some(first) });
    }
    proof {
        assert(scan_stack(s, n as int).len() == stack@.map_values(|x: usize| x as int).len());
    }
    Ok(JumpTable { map, pending: None })
}

/// What a resolved jump map records: partners come in mutual pairs, each
/// joining an open bracket to a close bracket that follows it.
pub proof fn lemma_jump_map_pairs(map: Seq<Option<usize>>, s: Seq<Instruction>)
    requires
        resolved_jump_map(map, s),
        s.len() <= usize::MAX,
    ensures
        forall|i: int|
            0 <= i < s.len() ==> (#[trigger] map[i] matches Some(j) ==> {
                &&& 0 <= j < s.len()
                &&& i != j
                &&& map[j as int] == Some(i as usize)
                &&& (i < j ==> s[i] == Instruction::CONDITIONAL_BEGIN && s[j as int]
                    == Instruction::CONDITIONAL_END)
                &&& (j < i ==> s[j as int] == Instruction::CONDITIONAL_BEGIN && s[i]
                    == Instruction::CONDITIONAL_END)
            }),
{
    let n = s.len() as int;
    lemma_scan_wf(s, n);
    assert forall|i: int| 0 <= i < s.len() implies (#[trigger] map[i] matches Some(j) ==> {
        &&& 0 <= j < s.len()
        &&& i != j
        &&& map[j as int] == Some(i as usize)
        &&& (i < j ==> s[i] == Instruction::CONDITIONAL_BEGIN && s[j as int]
            == Instruction::CONDITIONAL_END)
        &&& (j < i ==> s[j as int] == Instruction::CONDITIONAL_BEGIN && s[i]
            == Instruction::CONDITIONAL_END)
    }) by {
        let pairs = scan_pairs(s, n);
        match map[i] {
            Some(j) => {
                assert(pairs.contains_key(i));
                assert(map[i] == Some(pairs[i] as usize));
                assert(0 <= pairs[i] < n);
                assert(j == pairs[i]);
                assert(pairs.contains_key(j as int) && pairs[j as int] == i && j != i);
                assert(map[j as int] == Some(pairs[j as int] as usize));
                assert(map[j as int] == Some(i as usize));
            },
            None => {},
        }
    }
}

} // verus!
