//! Breakpoint bookkeeping for a ptrace-style debugger: address
//! alignment, patching one byte inside a machine word, parsing
//! breakpoint targets, and the table of set breakpoints. The ptrace
//! calls themselves live outside; this is the arithmetic and the
//! decisions around them.

use vstd::prelude::*;
use vstd::string::StringSliceAdditionalSpecFns;
use vstd::arithmetic::div_mod::lemma_fundamental_div_mod;
use vstd::arithmetic::mul::lemma_mul_inequality;
use std::collections::HashMap;

verus! {

broadcast use vstd::std_specs::hash::group_hash_axioms;

/// A software breakpoint: the patched address and the instruction
/// byte that the trap byte replaced.
#[derive(Debug, Clone, Copy, PartialEq, Eq, Structural)]
pub struct Breakpoint {
    pub addr: usize,
    pub orig_byte: u8,
}

/// Rounds an address down to the start of its 8-byte machine word.
pub fn align_addr_to_word(addr: usize) -> (r: usize)
    ensures
        r == addr - (addr % 8),
        r % 8 == 0,
        r <= addr,
        addr - r < 8,
{
    (addr / 8) * 8
}

/// The byte of `word` at byte position `i` (position zero is the
/// least significant byte).
pub open spec fn byte_of(word: u64, i: u64) -> u8 {
    ((word >> (8 * i)) & 0xff) as u8
}

/// Replaces the byte at position `byte_offset` of a machine word with
/// `val`, returning the byte that was there and the patched word:
/// every other byte of the word is untouched. This is how a trap
/// byte is planted in, and removed from, an instruction word.
pub fn patch_byte_in_word(word: u64, byte_offset: u64, val: u8) -> (r: (u8, u64))
    requires
        byte_offset < 8,
    ensures
        r.0 == byte_of(word, byte_offset),
        byte_of(r.1, byte_offset) == val,
        forall|j: u64| j < 8 && j != byte_offset ==> byte_of(r.1, j) == byte_of(word, j),
{
    let shift: u64 = 8 * byte_offset;
    let orig: u8 = ((word >> shift) & 0xff) as u8;
    let masked: u64 = word & !(0xffu64 << shift);
    let updated: u64 = masked | ((val as u64) << shift);
    proof {
        assert forall|j: u64| j < 8 && j != byte_offset implies byte_of(updated, j) == byte_of(
            word,
            j,
        ) by {
            assert(byte_offset < 8 && j < 8 && j != byte_offset ==> (((word & !(0xffu64 << (8
                * byte_offset))) | ((val as u64) << (8 * byte_offset))) >> (8 * j)) & 0xff == (word
                >> (8 * j)) & 0xff) by (bit_vector);
        }
        assert(byte_offset < 8 ==> (((word & !(0xffu64 << (8 * byte_offset))) | ((val as u64) << (8
            * byte_offset))) >> (8 * byte_offset)) & 0xff == val as u64) by (bit_vector);
        assert((word >> (8 * byte_offset)) & 0xff < 256) by (bit_vector);
        assert((updated >> (8 * byte_offset)) & 0xff < 256) by (bit_vector);
    }
    (orig, updated)
}

/// ASCII code points used when reading numbers and target strings.
pub const ZERO: u8 = 48;

pub const NINE: u8 = 57;

pub const LOWER_A: u8 = 97;

pub const LOWER_F: u8 = 102;

pub const UPPER_A: u8 = 65;

pub const UPPER_F: u8 = 70;

pub const LOWER_X: u8 = 120;

pub const UPPER_X: u8 = 88;

pub const STAR: u8 = 42;

/// Whether a byte is a digit of the given base (10 or 16; hexadecimal
/// digits may be in either case).
pub open spec fn spec_is_digit(b: u8, base: nat) -> bool {
    (ZERO <= b && b <= NINE) || (base == 16 && ((LOWER_A <= b && b <= LOWER_F) || (UPPER_A <= b && b
        <= UPPER_F)))
}

/// The value of one digit byte.
pub open spec fn spec_digit_val(b: u8) -> nat {
    if ZERO <= b && b <= NINE {
        (b - ZERO) as nat
    } else if LOWER_A <= b && b <= LOWER_F {
        (b - LOWER_A + 10) as nat
    } else if UPPER_A <= b && b <= UPPER_F {
        (b - UPPER_A + 10) as nat
    } else {
        0
    }
}

/// The number written by a digit string, most significant digit
/// first.
pub open spec fn spec_num_value(s: Seq<u8>, base: nat) -> nat
    decreases s.len(),
{
    if s.len() == 0 {
        0
    } else {
        spec_num_value(s.drop_last(), base) * base + spec_digit_val(s.last())
    }
}

/// Whether a byte string is a number this machine can hold: non-empty,
/// all digits of the base, and within `usize`.
pub open spec fn spec_valid_number(s: Seq<u8>, base: nat) -> bool {
    &&& s.len() > 0
    &&& forall|i: int| 0 <= i < s.len() ==> spec_is_digit(#[trigger] s[i], base)
    &&& spec_num_value(s, base) <= usize::MAX
}

/// A longer digit string never writes a smaller number: the value of
/// a prefix is a lower bound on the value of the whole.
proof fn lemma_num_value_prefix_le(s: Seq<u8>, base: nat, i: int)
    requires
        base >= 1,
        0 <= i <= s.len(),
    ensures
        spec_num_value(s.take(i), base) <= spec_num_value(s, base),
    decreases s.len() - i,
{
    if i < s.len() {
        assert(s.take(i + 1).drop_last() =~= s.take(i));
        assert(s.take(i + 1).last() == s[i]);
        assert(spec_num_value(s.take(i + 1), base) == spec_num_value(s.take(i), base) * base
            + spec_digit_val(s[i]));
        assert(spec_num_value(s.take(i), base) * base >= spec_num_value(s.take(i), base)) by (
        nonlinear_arith)
            requires
                base >= 1,
        ;
        lemma_num_value_prefix_le(s, base, i + 1);
    } else {
        assert(s.take(i) =~= s);
    }
}

/// Decodes one digit byte, exactly when it is a digit of the base.
fn digit_val(b: u8, base: usize) -> (r: Option<u8>)
    requires
        base == 10 || base == 16,
    ensures
        r matches Some(v) ==> spec_is_digit(b, base as nat) && v as nat == spec_digit_val(b) && v
            < base,
        r is None ==> !spec_is_digit(b, base as nat),
{
    if ZERO <= b && b <= NINE {
        Some(b - ZERO)
    } else if base == 16 && LOWER_A <= b && b <= LOWER_F {
        Some(b - LOWER_A + 10)
    } else if base == 16 && UPPER_A <= b && b <= UPPER_F {
        Some(b - UPPER_A + 10)
    } else {
        None
    }
}

/// Parses the digit string `bytes[start..]` in the given base.
/// Succeeds exactly when that string is a valid number for this
/// machine, and then returns its value.
pub fn parse_in_base(bytes: &[u8], start: usize, base: usize) -> (r: Option<usize>)
    requires
        base == 10 || base == 16,
        start <= bytes@.len(),
    ensures
        r matches Some(v) ==> spec_valid_number(bytes@.skip(start as int), base as nat) && v as nat
            == spec_num_value(bytes@.skip(start as int), base as nat),
        r is None ==> !spec_valid_number(bytes@.skip(start as int), base as nat),
{
    let ghost s: Seq<u8> = bytes@.skip(start as int);
    let n = bytes.len();
    if start == n {
        proof {
            assert(s.len() == 0);
        }
        return None;
    }
    let mut acc: usize = 0;
    let mut i: usize = start;
    while i < n
        invariant
            base == 10 || base == 16,
            start <= i <= n,
            n == bytes@.len(),
            s == bytes@.skip(start as int),
            acc as nat == spec_num_value(s.take(i - start), base as nat),
            forall|k: int| 0 <= k < i - start ==> spec_is_digit(#[trigger] s[k], base as nat),
        decreases n - i,
    {
        let ghost j: int = i - start;
        proof {
            assert(s.take(j + 1).drop_last() =~= s.take(j));
            assert(s.take(j + 1).last() == s[j]);
            assert(s[j] == bytes@[i as int]);
        }
        let d = match digit_val(bytes[i], base) {
            Some(d) => d,
            None => {
                proof {
                    assert(!spec_is_digit(s[j], base as nat));
                }
                return None;
            },
        };
        let room: usize = (usize::MAX - d as usize) / base;
        proof {
            let m: int = usize::MAX - d;
            lemma_fundamental_div_mod(m, base as int);
            if acc > room {
                lemma_mul_inequality(room as int + 1, acc as int, base as int);
                assert(acc as int * base >= (room + 1) * base);
                assert((room + 1) * base == room * base + base) by (nonlinear_arith);
                assert(room * base == m - m % (base as int)) by (nonlinear_arith)
                    requires
                        m == base * room + m % (base as int),
                ;
                assert(acc as int * base + d > usize::MAX);
                assert(spec_num_value(s.take(j + 1), base as nat) > usize::MAX);
                lemma_num_value_prefix_le(s, base as nat, j + 1);
                assert(spec_num_value(s, base as nat) > usize::MAX);
            } else {
                lemma_mul_inequality(acc as int, room as int, base as int);
                assert(room * base == m - m % (base as int)) by (nonlinear_arith)
                    requires
                        m == base * room + m % (base as int),
                ;
                assert(acc as int * base + d <= usize::MAX);
            }
        }
        if acc > room {
            return None;
        }
        acc = acc * base + d as usize;
        i = i + 1;
    }
    proof {
        assert(s.take(n - start) =~= s);
    }
    Some(acc)
}

/// Where the digits of an address string begin: a leading `0x` or
/// `0X` at `from` is skipped.
pub open spec fn spec_hex_digits_start(s: Seq<u8>, from: int) -> int {
    if s.len() >= from + 2 && s[from] == ZERO && (s[from + 1] == LOWER_X || s[from + 1] == UPPER_X) {
        from + 2
    } else {
        from
    }
}

/// The tail of `s` from `from` on, read as a hexadecimal address
/// with one optional leading `0x` or `0X`.
pub open spec fn spec_parse_address(s: Seq<u8>, from: int) -> Option<usize> {
    if spec_valid_number(s.skip(spec_hex_digits_start(s, from)), 16) {
        Some(spec_num_value(s.skip(spec_hex_digits_start(s, from)), 16) as usize)
    } else {
        None
    }
}

/// Parses the tail of `bytes` starting at `from` as a hexadecimal
/// address, skipping one leading `0x` or `0X`.
fn parse_address_from(bytes: &[u8], from: usize) -> (r: Option<usize>)
    requires
        from <= bytes@.len(),
    ensures
        r == spec_parse_address(bytes@, from as int),
{
    let n = bytes.len();
    let start: usize = if n >= 2 && from <= n - 2 && bytes[from] == ZERO && (bytes[from + 1] == LOWER_X
        || bytes[from + 1] == UPPER_X) {
        from + 2
    } else {
        from
    };
    proof {
        assert(start == spec_hex_digits_start(bytes@, from as int));
    }
    parse_in_base(bytes, start, 16)
}

/// Parses a breakpoint address written in hexadecimal, with or
/// without a leading `0x` or `0X`. Succeeds exactly when the digits
/// form a non-empty hexadecimal number this machine can hold, and
/// then returns its value.
pub fn parse_address(addr: &str) -> (r: Option<usize>)
    ensures
        r == spec_parse_address(addr.spec_bytes(), 0),
{
    let bytes = addr.as_bytes();
    parse_address_from(bytes, 0)
}

/// What a breakpoint target names.
#[derive(Debug, PartialEq, Eq, Structural, Clone, Copy)]
pub enum BreakTarget {
    /// A raw address, written `*` then hexadecimal digits.
    Address(usize),
    /// A source line number, written in decimal.
    Line(usize),
    /// Anything else: the name of a function, resolved elsewhere.
    Function,
}

/// What a breakpoint command's argument names: a `*` prefix demands a
/// hexadecimal address (and nothing, if its digits are bad); a
/// decimal number names a source line; anything else names a
/// function.
pub open spec fn spec_classify_target(s: Seq<u8>) -> Option<BreakTarget> {
    if s.len() >= 1 && s[0] == STAR {
        match spec_parse_address(s, 1) {
            Some(v) => Some(BreakTarget::Address(v)),
            None => None,
        }
    } else if spec_valid_number(s, 10) {
        Some(BreakTarget::Line(spec_num_value(s, 10) as usize))
    } else {
        Some(BreakTarget::Function)
    }
}

/// Classifies what a breakpoint command's argument names. The
/// debug-symbol lookups that turn lines and function names into
/// addresses happen elsewhere.
pub fn classify_breakpoint_target(target: &str) -> (r: Option<BreakTarget>)
    ensures
        r == spec_classify_target(target.spec_bytes()),
{
    let bytes = target.as_bytes();
    if bytes.len() >= 1 && bytes[0] == STAR {
        match parse_address_from(bytes, 1) {
            Some(v) => Some(BreakTarget::Address(v)),
            None => None,
        }
    } else {
        proof {
            assert(bytes@.skip(0) =~= bytes@);
        }
        match parse_in_base(bytes, 0, 10) {
            Some(v) => Some(BreakTarget::Line(v)),
            None => Some(BreakTarget::Function),
        }
    }
}

/// The breakpoints a debugger has set, by address. An entry maps to
/// the planted breakpoint once the trap byte is written, or to
/// nothing while no debuggee is running.
pub struct BreakpointTable {
    map: HashMap<usize, Option<Breakpoint>>,
}

impl View for BreakpointTable {
    type V = Map<usize, Option<Breakpoint>>;

    closed spec fn view(&self) -> Map<usize, Option<Breakpoint>> {
        self.map@
    }
}

impl BreakpointTable {
    /// Creates an empty table.
    pub fn new() -> (t: Self)
        ensures
            t@ == Map::<usize, Option<Breakpoint>>::empty(),
    {
        BreakpointTable { map: HashMap::new() }
    }

    /// Records a breakpoint at an address, replacing what was there.
    pub fn insert(&mut self, addr: usize, bp: Option<Breakpoint>)
        ensures
            final(self)@ == old(self)@.insert(addr, bp),
    {
        self.map.insert(addr, bp);
    }

    /// How many breakpoints are set.
    pub fn len(&self) -> (n: usize)
        ensures
            n == self@.len(),
    {
        self.map.len()
    }

    /// The decision taken when the debuggee stops at `rip`: if the
    /// address one before it holds a planted breakpoint, the debuggee
    /// hit that breakpoint and the byte to restore is returned.
    pub fn stopped_breakpoint(&self, rip: usize) -> (r: Option<u8>)
        requires
            rip >= 1,
        ensures
            match r {
                Some(b) => self@.contains_key((rip - 1) as usize) && (self@[(rip - 1) as usize]
                    matches Some(bp) && bp.orig_byte == b),
                None => !self@.contains_key((rip - 1) as usize) || self@[(rip - 1) as usize]
                    is None,
            },
    {
        match self.map.get(&(rip - 1)) {
            Some(entry) => match entry {
                Some(bp) => Some(bp.orig_byte),
                None => None,
            },
            None => None,
        }
    }
}

} // verus!
