//! The DIMACS CNF text parser.
//!
//! The grammar is specified as a byte-at-a-time transition function
//! ([`pstep`]) folded over the input ([`prun`]) and closed off at end of
//! input ([`pfinal`]); the executable parser is proved to compute exactly
//! that fold. A comment line starts with `c`, the problem line reads
//! `p cnf <vars> <clauses>`, and clause data is whitespace-separated signed
//! integers with `0` closing each clause. In strict mode the declared
//! counts are enforced: a literal above the declared variable count or a
//! clause beyond the declared clause count is an error.

use super::AsDimacs;
use crate::errors::ParserError;
use crate::solver::logic::cls_view;
use vstd::string::StringSliceAdditionalSpecFns;
use vstd::prelude::*;

verus! {

/// Blank characters inside a line: space, tab, carriage return.
pub open spec fn is_ws(c: u8) -> bool {
    c == 32 || c == 9 || c == 13
}

/// ASCII decimal digits.
pub open spec fn is_digit(c: u8) -> bool {
    48 <= c <= 57
}

/// The parser's modes: between tokens, inside a comment line, inside the
/// problem line, inside a number token.
#[derive(Debug, Clone, Copy, PartialEq, Eq, Structural)]
pub enum PMode {
    Line,
    Comment,
    Header,
    Num,
}

/// The abstract parser state that the grammar is defined over.
#[verifier::ext_equal]
pub struct PSt {
    /// Current mode.
    pub mode: PMode,
    /// No non-blank character has appeared on this line yet.
    pub bol: bool,
    /// Progress through the problem line, 0 through 9.
    pub hstep: int,
    /// The number being read carries a minus sign.
    pub neg: bool,
    /// The number being read has at least one digit.
    pub dig: bool,
    /// Magnitude accumulator of the number being read.
    pub val: int,
    /// Declared variable count from the problem line.
    pub hvars: int,
    /// Declared clause count from the problem line.
    pub hcls: int,
    /// A problem line has been completed.
    pub header: bool,
    /// Clause data has begun; no problem line may follow.
    pub started: bool,
    /// Literals of the clause being read.
    pub cur: Seq<i32>,
    /// Completed clauses.
    pub cls: Seq<Seq<i32>>,
    /// The first error, if any; it stops the machine.
    pub err: Option<ParserError>,
}

/// The initial state.
pub open spec fn pinit() -> PSt {
    PSt {
        mode: PMode::Line,
        bol: true,
        hstep: 0,
        neg: false,
        dig: false,
        val: 0,
        hvars: 0,
        hcls: 0,
        header: false,
        started: false,
        cur: Seq::empty(),
        cls: Seq::empty(),
        err: None,
    }
}

/// The state with an error recorded.
pub open spec fn perr(s: PSt, e: ParserError) -> PSt {
    PSt { err: Some(e), ..s }
}

/// Finishes the number token at position `i`: `0` closes the clause, any
/// other value joins it as a literal; strict mode enforces the declared
/// counts. `nl` records whether the delimiter was a newline.
pub open spec fn fin_lit(s: PSt, strict: bool, i: int, nl: bool) -> PSt {
    if !s.dig {
        perr(s, ParserError::CnfParseError(i as usize))
    } else if s.val == 0 {
        if strict && s.header && s.hcls > 0 && s.cls.len() >= s.hcls {
            perr(s, ParserError::TooManyClauses(s.cls.len() as i32, s.hcls as i32))
        } else {
            PSt { mode: PMode::Line, bol: nl, cur: Seq::empty(), cls: s.cls.push(s.cur), ..s }
        }
    } else {
        if strict && s.header && s.hvars > 0 && s.val > s.hvars {
            perr(s, ParserError::TooManyVariables(s.val as i32, s.hvars as i32))
        } else {
            let value: i32 = if s.neg {
                (-s.val) as i32
            } else {
                s.val as i32
            };
            PSt { mode: PMode::Line, bol: nl, cur: s.cur.push(value), ..s }
        }
    }
}

/// One character of the problem line `p cnf <vars> <clauses>`.
pub open spec fn pstep_header(s: PSt, c: u8, i: int) -> PSt {
    let e = perr(s, ParserError::CnfParseError(i as usize));
    if s.hstep == 0 {
        if is_ws(c) {
            PSt { hstep: 1, ..s }
        } else {
            e
        }
    } else if s.hstep == 1 {
        if is_ws(c) {
            s
        } else if c == 99 {
            PSt { hstep: 2, ..s }
        } else {
            e
        }
    } else if s.hstep == 2 {
        if c == 110 {
            PSt { hstep: 3, ..s }
        } else {
            e
        }
    } else if s.hstep == 3 {
        if c == 102 {
            PSt { hstep: 4, ..s }
        } else {
            e
        }
    } else if s.hstep == 4 {
        if is_ws(c) {
            PSt { hstep: 5, ..s }
        } else {
            e
        }
    } else if s.hstep == 5 {
        if is_ws(c) {
            s
        } else if is_digit(c) {
            PSt { hstep: 6, val: (c - 48) as int, ..s }
        } else {
            e
        }
    } else if s.hstep == 6 {
        if is_digit(c) {
            let nv = s.val * 10 + (c - 48);
            if nv > 0x7FFF_FFFF {
                perr(s, ParserError::ParseIntError(i as usize))
            } else {
                PSt { val: nv, ..s }
            }
        } else if is_ws(c) {
            PSt { hstep: 7, hvars: s.val, ..s }
        } else {
            e
        }
    } else if s.hstep == 7 {
        if is_ws(c) {
            s
        } else if is_digit(c) {
            PSt { hstep: 8, val: (c - 48) as int, ..s }
        } else {
            e
        }
    } else if s.hstep == 8 {
        if is_digit(c) {
            let nv = s.val * 10 + (c - 48);
            if nv > 0x7FFF_FFFF {
                perr(s, ParserError::ParseIntError(i as usize))
            } else {
                PSt { val: nv, ..s }
            }
        } else if c == 10 {
            PSt { mode: PMode::Line, bol: true, hcls: s.val, header: true, ..s }
        } else if is_ws(c) {
            PSt { hstep: 9, hcls: s.val, header: true, ..s }
        } else {
            e
        }
    } else {
        if c == 10 {
            PSt { mode: PMode::Line, bol: true, ..s }
        } else if is_ws(c) {
            s
        } else {
            e
        }
    }
}

/// One character of input: the grammar's transition function.
pub open spec fn pstep(s: PSt, c: u8, i: int, strict: bool) -> PSt {
    if s.err is Some {
        s
    } else {
        match s.mode {
            PMode::Line => {
                if c == 10 {
                    PSt { bol: true, ..s }
                } else if is_ws(c) {
                    s
                } else if c == 99 {
                    if s.bol {
                        PSt { mode: PMode::Comment, ..s }
                    } else {
                        perr(s, ParserError::CnfParseError(i as usize))
                    }
                } else if c == 112 {
                    if s.bol && !s.header && !s.started {
                        PSt { mode: PMode::Header, hstep: 0, bol: false, ..s }
                    } else {
                        perr(s, ParserError::CnfParseError(i as usize))
                    }
                } else if c == 45 {
                    PSt { mode: PMode::Num, neg: true, dig: false, val: 0, bol: false, started: true, ..s }
                } else if is_digit(c) {
                    PSt {
                        mode: PMode::Num,
                        neg: false,
                        dig: true,
                        val: (c - 48) as int,
                        bol: false,
                        started: true,
                        ..s
                    }
                } else {
                    perr(s, ParserError::CnfParseError(i as usize))
                }
            },
            PMode::Comment => {
                if c == 10 {
                    PSt { mode: PMode::Line, bol: true, ..s }
                } else {
                    s
                }
            },
            PMode::Header => pstep_header(s, c, i),
            PMode::Num => {
                if is_digit(c) {
                    let nv = s.val * 10 + (c - 48);
                    if s.neg && nv > 0x8000_0000 {
                        perr(s, ParserError::ParseIntError(i as usize))
                    } else if !s.neg && nv > 0x7FFF_FFFF {
                        perr(s, ParserError::ParseIntError(i as usize))
                    } else {
                        PSt { val: nv, dig: true, ..s }
                    }
                } else if c == 10 {
                    fin_lit(s, strict, i, true)
                } else if is_ws(c) {
                    fin_lit(s, strict, i, false)
                } else {
                    perr(s, ParserError::CnfParseError(i as usize))
                }
            },
        }
    }
}

/// The transition function folded over the input.
pub open spec fn prun(bytes: Seq<u8>, strict: bool) -> PSt
    decreases bytes.len(),
{
    if bytes.len() == 0 {
        pinit()
    } else {
        pstep(prun(bytes.drop_last(), strict), bytes.last(), bytes.len() - 1, strict)
    }
}

/// Closes the machine off at end of input, at position `len`: a pending
/// number is finished, an unterminated problem line or clause is an error.
pub open spec fn pfinal(s: PSt, strict: bool, len: int) -> PSt {
    if s.err is Some {
        s
    } else {
        let s2 = if s.mode is Num {
            fin_lit(s, strict, len, true)
        } else if s.mode is Header {
            if s.hstep == 8 {
                PSt { mode: PMode::Line, bol: true, hcls: s.val, header: true, ..s }
            } else if s.hstep == 9 {
                s
            } else {
                perr(s, ParserError::CnfParseError(len as usize))
            }
        } else {
            s
        };
        if s2.err is Some {
            s2
        } else if s2.cur.len() > 0 {
            perr(s2, ParserError::CnfParseError(len as usize))
        } else {
            s2
        }
    }
}

/// What parsing the whole input comes to: the fold, closed off at the end.
pub open spec fn pparse(bytes: Seq<u8>, strict: bool) -> PSt {
    pfinal(prun(bytes, strict), strict, bytes.len() as int)
}

/// The machine's running invariant: the accumulator and declared counts
/// stay in range, and no stored literal is the reserved 0.
pub open spec fn pst_wf(s: PSt) -> bool {
    &&& 0 <= s.val <= 0x8000_0000
    &&& (!s.neg && s.mode is Num ==> s.val <= 0x7FFF_FFFF)
    &&& (s.mode is Header && s.hstep >= 6 ==> s.val <= 0x7FFF_FFFF)
    &&& 0 <= s.hvars <= 0x7FFF_FFFF
    &&& 0 <= s.hcls <= 0x7FFF_FFFF
    &&& 0 <= s.hstep <= 9
    &&& (forall|k: int| 0 <= k < s.cur.len() ==> #[trigger] s.cur[k] != 0)
    &&& (forall|j: int, k: int|
        0 <= j < s.cls.len() && 0 <= k < s.cls[j].len() ==> #[trigger] s.cls[j][k] != 0)
}

/// Finishing a number token preserves the running invariant.
pub proof fn lemma_fin_lit_wf(s: PSt, strict: bool, i: int, nl: bool)
    requires
        pst_wf(s),
        s.mode is Num,
    ensures
        pst_wf(fin_lit(s, strict, i, nl)),
{
    let s2 = fin_lit(s, strict, i, nl);
    if s.dig && s.val == 0 && !(strict && s.header && s.hcls > 0 && s.cls.len() >= s.hcls) {
        assert forall|j: int, k: int|
            0 <= j < s2.cls.len() && 0 <= k < s2.cls[j].len() implies #[trigger] s2.cls[j][k]
            != 0 by {
            if j < s.cls.len() {
                assert(s2.cls[j] == s.cls[j]);
            } else {
                assert(s2.cls[j] == s.cur);
            }
        }
    }
    if s.dig && s.val != 0 && !(strict && s.header && s.hvars > 0 && s.val > s.hvars) {
        let value: i32 = if s.neg {
            (-s.val) as i32
        } else {
            s.val as i32
        };
        assert(value as int == if s.neg {
            -s.val
        } else {
            s.val
        });
        assert forall|k: int| 0 <= k < s2.cur.len() implies #[trigger] s2.cur[k] != 0 by {
            if k < s.cur.len() {
                assert(s2.cur[k] == s.cur[k]);
            } else {
                assert(s2.cur[k] == value);
            }
        }
    }
}

/// One step preserves the running invariant.
pub proof fn lemma_pstep_wf(s: PSt, c: u8, i: int, strict: bool)
    requires
        pst_wf(s),
    ensures
        pst_wf(pstep(s, c, i, strict)),
{
    if s.err is None && s.mode is Num && !is_digit(c) && (c == 10 || is_ws(c)) {
        lemma_fin_lit_wf(s, strict, i, c == 10);
    }
}

/// The fold preserves the running invariant from the initial state on.
pub proof fn lemma_prun_wf(bytes: Seq<u8>, strict: bool)
    ensures
        pst_wf(prun(bytes, strict)),
    decreases bytes.len(),
{
    if bytes.len() > 0 {
        lemma_prun_wf(bytes.drop_last(), strict);
        lemma_pstep_wf(prun(bytes.drop_last(), strict), bytes.last(), bytes.len() - 1, strict);
    }
}

/// Closing the machine off preserves the running invariant.
pub proof fn lemma_pfinal_wf(s: PSt, strict: bool, len: int)
    requires
        pst_wf(s),
    ensures
        pst_wf(pfinal(s, strict, len)),
{
    if s.err is None && s.mode is Num {
        lemma_fin_lit_wf(s, strict, len, true);
    }
}

/// Unfolding one step of the fold at position `i`.
pub proof fn lemma_prun_step(bytes: Seq<u8>, i: int, strict: bool)
    requires
        0 <= i < bytes.len(),
    ensures
        prun(bytes.take(i + 1), strict) == pstep(prun(bytes.take(i), strict), bytes[i], i, strict),
{
    assert(bytes.take(i + 1).drop_last() =~= bytes.take(i));
    assert(bytes.take(i + 1).last() == bytes[i]);
}

/// The executable parser state, mirroring [`PSt`].
struct ParseState {
    mode: PMode,
    bol: bool,
    hstep: u8,
    neg: bool,
    dig: bool,
    val: u32,
    hvars: i32,
    hcls: i32,
    header: bool,
    started: bool,
    cur: Vec<i32>,
    cls: Vec<Vec<i32>>,
    err: Option<ParserError>,
}

/// The abstract state an executable state stands for.
spec fn abs(s: &ParseState) -> PSt {
    PSt {
        mode: s.mode,
        bol: s.bol,
        hstep: s.hstep as int,
        neg: s.neg,
        dig: s.dig,
        val: s.val as int,
        hvars: s.hvars as int,
        hcls: s.hcls as int,
        header: s.header,
        started: s.started,
        cur: s.cur@,
        cls: cls_view(s.cls@),
        err: s.err,
    }
}

/// Executable counterpart of [`fin_lit`].
fn efin_lit(st: &mut ParseState, strict: bool, i: usize, nl: bool)
    requires
        pst_wf(abs(old(st))),
        abs(old(st)).err is None,
    ensures
        abs(final(st)) == fin_lit(abs(old(st)), strict, i as int, nl),
{
    let ghost target = fin_lit(abs(old(st)), strict, i as int, nl);
    if !st.dig {
        st.err = Some(ParserError::CnfParseError(i));
    } else if st.val == 0 {
        let completed = st.cls.len();
        if strict && st.header && st.hcls > 0 && completed as u64 >= st.hcls as u64 {
            st.err = Some(
                ParserError::TooManyClauses(#[verifier::truncate] (completed as i32), st.hcls),
            );
        } else {
            let ghost old_cls = cls_view(st.cls@);
            let ghost cur0 = st.cur@;
            let done = st.cur.split_off(0);
            st.cls.push(done);
            proof {
                assert(st.cur@ =~= Seq::<i32>::empty());
                assert(done@ =~= cur0);
            }
            st.mode = PMode::Line;
            st.bol = nl;
            proof {
                assert(cls_view(st.cls@) =~= old_cls.push(cur0));
                assert(abs(st) =~= target);
            }
        }
    } else {
        if strict && st.header && st.hvars > 0 && st.val as u64 > st.hvars as u64 {
            st.err = Some(
                ParserError::TooManyVariables(#[verifier::truncate] (st.val as i32), st.hvars),
            );
        } else {
            let value: i32 = if st.neg {
                (-(st.val as i64)) as i32
            } else {
                st.val as i32
            };
            st.cur.push(value);
            st.mode = PMode::Line;
            st.bol = nl;
            proof {
                assert(abs(st) =~= target);
            }
        }
    }
}

/// Executable counterpart of [`pstep`].
#[verifier::rlimit(60)]
fn estep(st: &mut ParseState, c: u8, i: usize, strict: bool)
    requires
        pst_wf(abs(old(st))),
    ensures
        abs(final(st)) == pstep(abs(old(st)), c, i as int, strict),
{
    let ghost target = pstep(abs(old(st)), c, i as int, strict);
    if st.err.is_some() {
        return ;
    }
    match st.mode {
        PMode::Line => {
            if c == 10 {
                st.bol = true;
            } else if c == 32 || c == 9 || c == 13 {
            } else if c == 99 {
                if st.bol {
                    st.mode = PMode::Comment;
                } else {
                    st.err = Some(ParserError::CnfParseError(i));
                }
            } else if c == 112 {
                if st.bol && !st.header && !st.started {
                    st.mode = PMode::Header;
                    st.hstep = 0;
                    st.bol = false;
                } else {
                    st.err = Some(ParserError::CnfParseError(i));
                }
            } else if c == 45 {
                st.mode = PMode::Num;
                st.neg = true;
                st.dig = false;
                st.val = 0;
                st.bol = false;
                st.started = true;
            } else if 48 <= c && c <= 57 {
                st.mode = PMode::Num;
                st.neg = false;
                st.dig = true;
                st.val = (c - 48) as u32;
                st.bol = false;
                st.started = true;
            } else {
                st.err = Some(ParserError::CnfParseError(i));
            }
        },
        PMode::Comment => {
            if c == 10 {
                st.mode = PMode::Line;
                st.bol = true;
            }
        },
        PMode::Header => {
            if st.hstep == 0 {
                if c == 32 || c == 9 || c == 13 {
                    st.hstep = 1;
                } else {
                    st.err = Some(ParserError::CnfParseError(i));
                }
            } else if st.hstep == 1 {
                if c == 32 || c == 9 || c == 13 {
                } else if c == 99 {
                    st.hstep = 2;
                } else {
                    st.err = Some(ParserError::CnfParseError(i));
                }
            } else if st.hstep == 2 {
                if c == 110 {
                    st.hstep = 3;
                } else {
                    st.err = Some(ParserError::CnfParseError(i));
                }
            } else if st.hstep == 3 {
                if c == 102 {
                    st.hstep = 4;
                } else {
                    st.err = Some(ParserError::CnfParseError(i));
                }
            } else if st.hstep == 4 {
                if c == 32 || c == 9 || c == 13 {
                    st.hstep = 5;
                } else {
                    st.err = Some(ParserError::CnfParseError(i));
                }
            } else if st.hstep == 5 {
                if c == 32 || c == 9 || c == 13 {
                } else if 48 <= c && c <= 57 {
                    st.hstep = 6;
                    st.val = (c - 48) as u32;
                } else {
                    st.err = Some(ParserError::CnfParseError(i));
                }
            } else if st.hstep == 6 {
                if 48 <= c && c <= 57 {
                    let nv: u64 = st.val as u64 * 10 + (c - 48) as u64;
                    if nv > 0x7FFF_FFFF {
                        st.err = Some(ParserError::ParseIntError(i));
                    } else {
                        st.val = nv as u32;
                    }
                } else if c == 32 || c == 9 || c == 13 {
                    st.hstep = 7;
                    st.hvars = st.val as i32;
                } else {
                    st.err = Some(ParserError::CnfParseError(i));
                }
            } else if st.hstep == 7 {
                if c == 32 || c == 9 || c == 13 {
                } else if 48 <= c && c <= 57 {
                    st.hstep = 8;
                    st.val = (c - 48) as u32;
                } else {
                    st.err = Some(ParserError::CnfParseError(i));
                }
            } else if st.hstep == 8 {
                if 48 <= c && c <= 57 {
                    let nv: u64 = st.val as u64 * 10 + (c - 48) as u64;
                    if nv > 0x7FFF_FFFF {
                        st.err = Some(ParserError::ParseIntError(i));
                    } else {
                        st.val = nv as u32;
                    }
                } else if c == 10 {
                    st.mode = PMode::Line;
                    st.bol = true;
                    st.hcls = st.val as i32;
                    st.header = true;
                } else if c == 32 || c == 9 || c == 13 {
                    st.hstep = 9;
                    st.hcls = st.val as i32;
                    st.header = true;
                } else {
                    st.err = Some(ParserError::CnfParseError(i));
                }
            } else {
                if c == 10 {
                    st.mode = PMode::Line;
                    st.bol = true;
                } else if c == 32 || c == 9 || c == 13 {
                } else {
                    st.err = Some(ParserError::CnfParseError(i));
                }
            }
        },
        PMode::Num => {
            if 48 <= c && c <= 57 {
                let nv: u64 = st.val as u64 * 10 + (c - 48) as u64;
                if st.neg && nv > 0x8000_0000 {
                    st.err = Some(ParserError::ParseIntError(i));
                } else if !st.neg && nv > 0x7FFF_FFFF {
                    st.err = Some(ParserError::ParseIntError(i));
                } else {
                    st.val = nv as u32;
                    st.dig = true;
                }
            } else if c == 10 {
                efin_lit(st, strict, i, true);
            } else if c == 32 || c == 9 || c == 13 {
                efin_lit(st, strict, i, false);
            } else {
                st.err = Some(ParserError::CnfParseError(i));
            }
        },
    }
    proof {
        assert(abs(st) =~= target);
    }
}

/// Executable counterpart of [`pfinal`].
fn efinal(st: &mut ParseState, strict: bool, len: usize)
    requires
        pst_wf(abs(old(st))),
    ensures
        abs(final(st)) == pfinal(abs(old(st)), strict, len as int),
{
    let ghost target = pfinal(abs(old(st)), strict, len as int);
    if st.err.is_some() {
        return ;
    }
    match st.mode {
        PMode::Num => {
            efin_lit(st, strict, len, true);
        },
        PMode::Header => {
            if st.hstep == 8 {
                st.mode = PMode::Line;
                st.bol = true;
                st.hcls = st.val as i32;
                st.header = true;
            } else if st.hstep == 9 {
            } else {
                st.err = Some(ParserError::CnfParseError(len));
            }
        },
        _ => {},
    }
    if st.err.is_none() && st.cur.len() > 0 {
        st.err = Some(ParserError::CnfParseError(len));
    }
    proof {
        assert(abs(st) =~= target);
    }
}

/// Parses DIMACS CNF text, feeding every parsed clause to the consumer
/// `dim` in input order.
///
/// The result is `Ok` exactly when the input follows the grammar
/// ([`pparse`] reports no error) and the consumer accepts every parsed
/// clause; the consumer then holds exactly the parsed clauses, appended in
/// order. On a grammar error that error is reported and the consumer is
/// left untouched; when the consumer itself rejects a clause, it keeps
/// those it accepted before.
///
/// In strict mode the declared counts of the problem line are enforced;
/// see [`pstep`] and [`fin_lit`].
pub fn parse_dimacs_cnf<D: AsDimacs>(input: &str, strict: bool, dim: &mut D) -> (r: Result<
    (),
    ParserError,
>)
    requires
        old(dim).dwf(),
    ensures
        final(dim).dwf(),
        r is Ok <==> (pparse(input.spec_bytes(), strict).err is None && (forall|j: int|
            0 <= j < pparse(input.spec_bytes(), strict).cls.len() ==> D::accepts(
                #[trigger] pparse(input.spec_bytes(), strict).cls[j],
            ))),
        r is Ok ==> final(dim).store() == old(dim).store() + pparse(
            input.spec_bytes(),
            strict,
        ).cls,
        pparse(input.spec_bytes(), strict).err matches Some(e) ==> r == Err::<(), ParserError>(e),
        exists|k: int|
            0 <= k <= pparse(input.spec_bytes(), strict).cls.len() && final(dim).store() == old(
                dim,
            ).store() + pparse(input.spec_bytes(), strict).cls.subrange(0, k),
{
    let ghost bytes_spec = input.spec_bytes();
    let ghost out = pparse(bytes_spec, strict);
    let bytes = input.as_bytes();
    let mut st = ParseState {
        mode: PMode::Line,
        bol: true,
        hstep: 0,
        neg: false,
        dig: false,
        val: 0,
        hvars: 0,
        hcls: 0,
        header: false,
        started: false,
        cur: Vec::new(),
        cls: Vec::new(),
        err: None,
    };
    proof {
        assert(abs(&st) =~= pinit());
        assert(bytes_spec.take(0) =~= Seq::<u8>::empty());
    }
    let mut i: usize = 0;
    while i < bytes.len()
        invariant
            bytes@ == bytes_spec,
            i <= bytes_spec.len(),
            abs(&st) == prun(bytes_spec.take(i as int), strict),
        decreases bytes_spec.len() - i,
    {
        let c = bytes[i];
        proof {
            lemma_prun_wf(bytes_spec.take(i as int), strict);
            lemma_prun_step(bytes_spec, i as int, strict);
        }
        estep(&mut st, c, i, strict);
        i += 1;
    }
    proof {
        assert(bytes_spec.take(bytes_spec.len() as int) =~= bytes_spec);
        lemma_prun_wf(bytes_spec, strict);
        lemma_pfinal_wf(prun(bytes_spec, strict), strict, bytes_spec.len() as int);
    }
    efinal(&mut st, strict, bytes.len());
    proof {
        assert(abs(&st) == out);
    }
    if let Some(e) = st.err {
        proof {
            assert(out.cls.subrange(0, 0) =~= Seq::<Seq<i32>>::empty());
            assert(old(dim).store() + out.cls.subrange(0, 0) =~= old(dim).store());
        }
        return Err(e);
    }
    let ghost out_cls = out.cls;
    proof {
        assert(cls_view(st.cls@) == out_cls);
    }
    let total = st.cls.len();
    let mut k: usize = 0;
    while k < total
        invariant
            old(dim).dwf(),
            dim.dwf(),
            total == st.cls@.len(),
            k <= total,
            cls_view(st.cls@) == out_cls,
            bytes_spec == input.spec_bytes(),
            out_cls == pparse(bytes_spec, strict).cls,
            pparse(bytes_spec, strict).err is None,
            forall|j: int| 0 <= j < k ==> D::accepts(#[trigger] out_cls[j]),
            dim.store() == old(dim).store() + out_cls.subrange(0, k as int),
        decreases total - k,
    {
        let clause = vstd::slice::slice_to_vec(st.cls[k].as_slice());
        let ghost pre = dim.store();
        match dim.push_clause(clause) {
            Ok(()) => {},
            Err(e) => {
                proof {
                    assert(!D::accepts(pparse(input.spec_bytes(), strict).cls[k as int]));
                }
                return Err(e);
            },
        }
        proof {
            assert(dim.store() =~= old(dim).store() + out_cls.subrange(0, k + 1));
        }
        k += 1;
    }
    proof {
        assert(out_cls.subrange(0, out_cls.len() as int) =~= out_cls);
    }
    Ok(())
}

} // verus!
