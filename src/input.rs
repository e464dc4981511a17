//! Reading a player's text: board coordinates, move kinds and variant names.

use vstd::prelude::*;
use vstd::string::StrSliceExecFns;
use crate::board::{Minesweeper, MoveType};
use crate::geometry::MinesweeperVariant;

verus! {

/// A coordinate that could not be read, or lies off the board.
#[derive(Clone, Copy, Debug, PartialEq, Eq, Structural)]
pub struct MoveValidationError;

/// A name that is no variant.
#[derive(Clone, Copy, Debug, PartialEq, Eq, Structural)]
pub struct VariantParseError;

/// A coordinate entry: a zero-based index, or the request to quit.
#[derive(Clone, Copy, Debug, PartialEq, Eq, Structural)]
pub enum PosInput {
    Index(usize),
    Quit,
}

/// A move-kind entry: a move, or the request to quit.
#[derive(Clone, Copy, Debug, PartialEq, Eq, Structural)]
pub enum MoveCommand {
    Move(MoveType),
    Quit,
}

impl MoveValidationError {
    /// The message shown for this error.
    pub fn message(&self) -> (r: &'static str)
        ensures
            r@ == "Invalid move"@,
    {
        "Invalid move"
    }
}

impl VariantParseError {
    /// The message shown for this error.
    pub fn message(&self) -> (r: &'static str)
        ensures
            r@ == "Invalid variant"@,
    {
        "Invalid variant"
    }
}

/// The lowercase form of a string, as Unicode defines it.
pub uninterp spec fn lower_of(s: Seq<char>) -> Seq<char>;

/// Relies on `str::to_lowercase`: its result depends on the characters alone.
#[verifier::external_body]
fn lowercase(s: &str) -> (r: String)
    ensures
        r@ == lower_of(s@),
{
    s.to_lowercase()
}

/// Whether two strings hold the same characters.
fn same_text(a: &str, b: &str) -> (r: bool)
    ensures
        r == (a@ == b@),
{
    let n = a.unicode_len();
    if n != b.unicode_len() {
        return false;
    }
    let mut i: usize = 0;
    while i < n
        invariant
            n == a@.len(),
            n == b@.len(),
            i <= n,
            forall|j: int| 0 <= j < i ==> a@[j] == b@[j],
        decreases n - i,
    {
        if a.get_char(i) != b.get_char(i) {
            return false;
        }
        i = i + 1;
    }
    assert(a@ =~= b@);
    true
}

/// The variant that a lowercase name stands for.
pub open spec fn variant_named(t: Seq<char>) -> Result<MinesweeperVariant, VariantParseError> {
    if t == "normal"@ {
        Ok(MinesweeperVariant::Normal)
    } else if t == "far-normal"@ {
        Ok(MinesweeperVariant::FarNormal)
    } else if t == "knight-paths"@ {
        Ok(MinesweeperVariant::KnightPaths)
    } else if t == "blind-up"@ {
        Ok(MinesweeperVariant::BlindUp)
    } else if t == "blind-down"@ {
        Ok(MinesweeperVariant::BlindDown)
    } else if t == "blind-left"@ {
        Ok(MinesweeperVariant::BlindLeft)
    } else if t == "blind-right"@ {
        Ok(MinesweeperVariant::BlindRight)
    } else if t == "orthogonal"@ {
        Ok(MinesweeperVariant::Orthogonal)
    } else if t == "far-orthogonal"@ {
        Ok(MinesweeperVariant::FarOrthogonal)
    } else if t == "diagonal"@ {
        Ok(MinesweeperVariant::Diagonal)
    } else if t == "far-diagonal"@ {
        Ok(MinesweeperVariant::FarDiagonal)
    } else if t == "doubled"@ {
        Ok(MinesweeperVariant::Doubled)
    } else {
        Err(VariantParseError)
    }
}

impl MinesweeperVariant {
    /// The variant named by `t`, already in lowercase.
    pub fn from_lowered(t: &str) -> (r: Result<Self, VariantParseError>)
        ensures
            r == variant_named(t@),
    {
        if same_text(t, "normal") {
            Ok(MinesweeperVariant::Normal)
        } else if same_text(t, "far-normal") {
            Ok(MinesweeperVariant::FarNormal)
        } else if same_text(t, "knight-paths") {
            Ok(MinesweeperVariant::KnightPaths)
        } else if same_text(t, "blind-up") {
            Ok(MinesweeperVariant::BlindUp)
        } else if same_text(t, "blind-down") {
            Ok(MinesweeperVariant::BlindDown)
        } else if same_text(t, "blind-left") {
            Ok(MinesweeperVariant::BlindLeft)
        } else if same_text(t, "blind-right") {
            Ok(MinesweeperVariant::BlindRight)
        } else if same_text(t, "orthogonal") {
            Ok(MinesweeperVariant::Orthogonal)
        } else if same_text(t, "far-orthogonal") {
            Ok(MinesweeperVariant::FarOrthogonal)
        } else if same_text(t, "diagonal") {
            Ok(MinesweeperVariant::Diagonal)
        } else if same_text(t, "far-diagonal") {
            Ok(MinesweeperVariant::FarDiagonal)
        } else if same_text(t, "doubled") {
            Ok(MinesweeperVariant::Doubled)
        } else {
            Err(VariantParseError)
        }
    }

    /// The variant named by `s`, in any case.
    pub fn from_name(s: &str) -> (r: Result<Self, VariantParseError>)
        ensures
            r == variant_named(lower_of(s@)),
    {
        let l = lowercase(s);
        Self::from_lowered(l.as_str())
    }
}

impl core::str::FromStr for MinesweeperVariant {
    type Err = VariantParseError;

    fn from_str(s: &str) -> Result<Self, VariantParseError> {
        Self::from_name(s)
    }
}

/// The command that a lowercase move-kind entry stands for.
pub open spec fn command_named(t: Seq<char>) -> Option<MoveCommand> {
    if t == "f"@ || t == "flag"@ {
        Some(MoveCommand::Move(MoveType::Flag))
    } else if t == "o"@ || t == "open"@ {
        Some(MoveCommand::Move(MoveType::Open))
    } else if t == "q"@ || t == "quit"@ {
        Some(MoveCommand::Quit)
    } else {
        None
    }
}

/// The command named by `t`, already in lowercase.
pub fn command_from_lowered(t: &str) -> (r: Option<MoveCommand>)
    ensures
        r == command_named(t@),
{
    if same_text(t, "f") || same_text(t, "flag") {
        Some(MoveCommand::Move(MoveType::Flag))
    } else if same_text(t, "o") || same_text(t, "open") {
        Some(MoveCommand::Move(MoveType::Open))
    } else if same_text(t, "q") || same_text(t, "quit") {
        Some(MoveCommand::Quit)
    } else {
        None
    }
}

/// The command named by a move-kind entry `s`, in any case.
pub fn parse_move_type(s: &str) -> (r: Option<MoveCommand>)
    ensures
        r == command_named(lower_of(s@)),
{
    let l = lowercase(s);
    command_from_lowered(l.as_str())
}

/// A decimal digit.
pub open spec fn is_digit(c: char) -> bool {
    '0' <= c <= '9'
}

/// The value of a decimal digit.
pub open spec fn digit_value(c: char) -> int {
    c as int - '0' as int
}

/// The number written in decimal by the digits `d`.
pub open spec fn digits_value(d: Seq<char>) -> int
    decreases d.len(),
{
    if d.len() == 0 {
        0
    } else {
        digits_value(d.drop_last()) * 10 + digit_value(d.last())
    }
}

/// `s` without a leading `+`.
pub open spec fn unsigned_part(s: Seq<char>) -> Seq<char> {
    if s.len() > 0 && s[0] == '+' {
        s.subrange(1, s.len() as int)
    } else {
        s
    }
}

/// The machine integer that `s` writes: an optional `+` and at least one
/// decimal digit, of a value that fits.
pub open spec fn usize_of(s: Seq<char>) -> Option<usize> {
    let d = unsigned_part(s);
    if d.len() > 0 && (forall|i: int| 0 <= i < d.len() ==> is_digit(#[trigger] d[i])) && digits_value(d)
        <= usize::MAX {
        Some(digits_value(d) as usize)
    } else {
        None
    }
}

/// A prefix of digits has at most the value of the whole.
proof fn lemma_digits_prefix(d: Seq<char>, k: int)
    requires
        0 <= k <= d.len(),
        forall|i: int| 0 <= i < d.len() ==> is_digit(#[trigger] d[i]),
    ensures
        0 <= digits_value(d.take(k)) <= digits_value(d),
    decreases d.len(),
{
    if d.len() > 0 {
        lemma_digits_nonneg(d.drop_last());
        if k < d.len() {
            lemma_digits_prefix(d.drop_last(), k);
            assert(d.drop_last().take(k) =~= d.take(k));
        } else {
            assert(d.take(k) =~= d);
        }
    } else {
        assert(d.take(k) =~= d);
    }
}

proof fn lemma_digits_nonneg(d: Seq<char>)
    requires
        forall|i: int| 0 <= i < d.len() ==> is_digit(#[trigger] d[i]),
    ensures
        0 <= digits_value(d),
    decreases d.len(),
{
    if d.len() > 0 {
        lemma_digits_nonneg(d.drop_last());
    }
}

/// Reads a machine integer written in decimal, with an optional `+`.
pub fn parse_usize(s: &str) -> (r: Option<usize>)
    ensures
        r == usize_of(s@),
{
    let n = s.unicode_len();
    let mut start: usize = 0;
    if n > 0 && s.get_char(0) == '+' {
        start = 1;
    }
    let ghost d = s@.subrange(start as int, n as int);
    assert(d == unsigned_part(s@));
    if start >= n {
        return None;
    }
    let mut val: usize = 0;
    let mut i: usize = start;
    while i < n
        invariant
            n == s@.len(),
            start < n,
            start <= i <= n,
            d == s@.subrange(start as int, n as int),
            d == unsigned_part(s@),
            forall|j: int| 0 <= j < i - start ==> is_digit(#[trigger] d[j]),
            val == digits_value(d.take(i - start)),
        decreases n - i,
    {
        let c = s.get_char(i);
        assert(d[i - start] == c);
        if !('0' <= c && c <= '9') {
            assert(!is_digit(d[i - start]));
            return None;
        }
        assert(d.take(i - start + 1).drop_last() =~= d.take(i - start));
        let dig = ((c as u32) - ('0' as u32)) as usize;
        let next = match val.checked_mul(10) {
            Some(t) => t.checked_add(dig),
            None => None,
        };
        match next {
            Some(v) => {
                val = v;
            },
            None => {
                proof {
                    assert(dig as int == digit_value(c));
                    assert(digits_value(d.take(i - start + 1)) == val * 10 + dig);
                    assert(digits_value(d.take(i - start + 1)) > usize::MAX);
                    if forall|j: int| 0 <= j < d.len() ==> is_digit(#[trigger] d[j]) {
                        lemma_digits_prefix(d, i - start + 1);
                    }
                }
                return None;
            },
        }
        i = i + 1;
    }
    assert(d.take(n - start) =~= d);
    Some(val)
}

/// What a coordinate entry gives, for a board side of `bound` cells: the
/// entry as a number from one to `bound` gives its zero-based index; an
/// entry that is no number gives the request to quit when its lowercase form
/// `lowered` is `q` or `quit`; anything else is an error.
pub open spec fn move_pos_of(raw: Seq<char>, lowered: Seq<char>, bound: usize) -> Result<PosInput, MoveValidationError> {
    match usize_of(raw) {
        Some(n) => if 1 <= n <= bound {
            Ok(PosInput::Index((n - 1) as usize))
        } else {
            Err(MoveValidationError)
        },
        None => if lowered == "q"@ || lowered == "quit"@ {
            Ok(PosInput::Quit)
        } else {
            Err(MoveValidationError)
        },
    }
}

/// Reads the coordinate entry `raw`, given its lowercase form `lowered`.
pub fn move_pos_from(raw: &str, lowered: &str, bound: usize) -> (r: Result<PosInput, MoveValidationError>)
    ensures
        r == move_pos_of(raw@, lowered@, bound),
{
    match parse_usize(raw) {
        Some(n) => if 1 <= n && n <= bound {
            Ok(PosInput::Index(n - 1))
        } else {
            Err(MoveValidationError)
        },
        None => if same_text(lowered, "q") || same_text(lowered, "quit") {
            Ok(PosInput::Quit)
        } else {
            Err(MoveValidationError)
        },
    }
}

impl Minesweeper {
    /// Reads the coordinate entry `raw` for a board side of `bound` cells.
    pub fn validate_move_pos(raw: &str, bound: usize) -> (r: Result<PosInput, MoveValidationError>)
        ensures
            r == move_pos_of(raw@, lower_of(raw@), bound),
    {
        let l = lowercase(raw);
        move_pos_from(raw, l.as_str(), bound)
    }
}

} // verus!
