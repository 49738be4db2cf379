//! The external encode/decode services the synchronizer consumes: the
//! disassembler (bytes to mnemonic text) and the fuzzy name matcher, each
//! behind one trusted wrapper whose contract names what the call returns.
//! The session-wide architecture, syntax dialect and start address are fixed
//! here, so each result is a function of the call's arguments alone.

use vstd::prelude::*;
use capstone::Capstone;
use capstone::arch::BuildsCapstone;
use capstone::arch::BuildsCapstoneSyntax;
use capstone::arch::x86::ArchMode;
use capstone::arch::x86::ArchSyntax;
use fuzzy_matcher::FuzzyMatcher;
use fuzzy_matcher::skim::SkimMatcherV2;

verus! {

/// What the disassembler decodes a byte sequence into: the ordered
/// (consumed bytes, mnemonic text) pairs covering a prefix of the input,
/// left to right.
pub uninterp spec fn disasm_of(bytes: Seq<u8>) -> Seq<(Seq<u8>, Seq<char>)>;

/// The consumed bytes of a decode result, concatenated in order.
pub open spec fn pairs_bytes(pairs: Seq<(Seq<u8>, Seq<char>)>) -> Seq<u8>
    decreases pairs.len(),
{
    if pairs.len() == 0 {
        Seq::<u8>::empty()
    } else {
        pairs[0].0 + pairs_bytes(pairs.drop_first())
    }
}

/// The consumed bytes of the wrapper's returned pairs, concatenated.
pub open spec fn cells_bytes(rs: Seq<(Vec<u8>, Vec<char>)>) -> Seq<u8>
    decreases rs.len(),
{
    if rs.len() == 0 {
        Seq::<u8>::empty()
    } else {
        rs[0].0@ + cells_bytes(rs.drop_first())
    }
}

/// Relies on capstone's `disasm_all` over an engine built fresh for the call
/// with fixed options (x86, 64-bit, Intel syntax) and a fixed start address:
/// capstone decodes deterministically, so the instructions, their bytes and
/// their formatted `mnemonic op_str` text are a function of the input bytes
/// alone; and it decodes the buffer front to back, one instruction after the
/// other, stopping at the first byte that starts no instruction, so the
/// consumed bytes, concatenated, are a prefix of the input.
#[verifier::external_body]
pub fn disasm(bytes: &[u8]) -> (r: Vec<(Vec<u8>, Vec<char>)>)
    ensures
        r@.len() == disasm_of(bytes@).len(),
        forall|i: int|
            0 <= i < r@.len() ==> (#[trigger] r@[i]).0@ == disasm_of(bytes@)[i].0 && r@[i].1@
                == disasm_of(bytes@)[i].1,
        cells_bytes(r@).len() <= bytes@.len(),
        cells_bytes(r@) == bytes@.take(cells_bytes(r@).len() as int),
{
    let cs = Capstone::new().x86().mode(ArchMode::Mode64).syntax(ArchSyntax::Intel).detail(
        true,
    ).build().expect("failed to create capstone object");
    let insns = cs.disasm_all(bytes, 0x0).expect("disasm to work?");
    insns.iter().map(
        |x|
            (
                x.bytes().to_vec(),
                format!("{} {}", x.mnemonic().unwrap_or(""), x.op_str().unwrap_or("")).chars().collect(),
            ),
    ).collect()
}

/// What the fuzzy matcher scores a candidate against a typed pattern: None
/// when the pattern does not match at all.
pub uninterp spec fn fuzzy_score_of(choice: Seq<char>, pattern: Seq<char>) -> Option<i64>;

/// Relies on fuzzy_matcher's `SkimMatcherV2::fuzzy_match` with the default
/// configuration: a deterministic dynamic-programming score of the two
/// strings alone.
#[verifier::external_body]
pub(crate) fn fuzzy_score(choice: &str, pattern: &str) -> (r: Option<i64>)
    ensures
        r == fuzzy_score_of(choice@, pattern@),
{
    SkimMatcherV2::default().fuzzy_match(choice, pattern)
}

} // verus!
