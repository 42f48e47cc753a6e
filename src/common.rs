use vstd::prelude::*;
use vstd::std_specs::cmp::PartialOrdSpec;

verus! {

/// Kinds of errors met when a textual code is read.
#[derive(Debug, Clone, Copy, PartialEq, Eq, Structural)]
pub enum CodeError {
    /// The text does not follow the grammar of the code.
    BadCode,
    /// The text is well formed, but does not fit the stated model.
    ModelMismatch,
}

/// A generic error marker.
#[derive(Debug, Clone, Copy, PartialEq, Eq, Structural)]
pub struct MyError;

/// A light colour: an index below the number of colours of the model.
#[derive(Debug, Clone, Copy, Default, PartialEq, Eq, Structural, PartialOrd, Ord, Hash)]
pub struct Color(pub u8);

/// Movement of a robot: stay, go half way to the other robot, or go to it.
#[derive(Debug, Clone, Copy, PartialEq, Eq, Structural, Ord, Hash)]
pub enum Move {
    Stay,
    ToHalf,
    ToOther,
}

/// Distance between the two robots.
#[derive(Debug, Clone, Copy, PartialEq, Eq, Structural, PartialOrd, Ord, Hash)]
pub enum Distance {
    Same,
    Near,
    Far,
}

/// Kinds of models, by what a robot observes of the lights.
#[derive(Debug, Clone, Copy, PartialEq, Eq, Structural, Hash)]
pub enum ModelKind {
    /// Both lights.
    Full,
    /// Its own light only.
    Internal,
    /// The other robot's light only.
    External,
}

/// The adversary that activates the robots.
#[allow(non_camel_case_types)]
#[derive(Debug, Clone, Copy, PartialEq, Eq, Structural, Hash)]
pub enum Scheduler {
    Centralized,
    FSYNC,
    SSYNC,
    ASYNC_LC_Strict,
    ASYNC_LC_Atomic,
    ASYNC_CM_Atomic,
    ASYNC_Move_Atomic,
    ASYNC_Move_Regular,
    ASYNC_Move_Safe,
    ASYNC,
    ASYNC_Regular,
    ASYNC_Safe,
}

// ---------------------------------------------------------------------------
// Decimal digits

/// Whether `c` is an ASCII decimal digit.
pub open spec fn is_digit(c: char) -> bool {
    '0' <= c <= '9'
}

/// The value of a decimal digit.
pub open spec fn digit_value(c: char) -> nat {
    (c as u32 - '0' as u32) as nat
}

/// The decimal digit of a value below ten.
pub open spec fn digit_char(d: nat) -> char {
    ((d + '0' as u32) as u32) as char
}

/// Decimal notation of a natural number, without leading zeros.
pub open spec fn decimal(n: nat) -> Seq<char>
    decreases n,
{
    if n < 10 {
        seq![digit_char(n)]
    } else {
        decimal(n / 10).push(digit_char(n % 10))
    }
}

/// Whether `s` is a non-empty string of decimal digits.
pub open spec fn is_decimal(s: Seq<char>) -> bool {
    s.len() > 0 && forall|i: int| 0 <= i < s.len() ==> is_digit(#[trigger] s[i])
}

/// The value of a string of decimal digits.
pub open spec fn decimal_value(s: Seq<char>) -> nat
    decreases s.len(),
{
    if s.len() == 0 {
        0
    } else {
        decimal_value(s.drop_last()) * 10 + digit_value(s.last())
    }
}

// ---------------------------------------------------------------------------
// Colours

impl Color {
    /// The colours `0 .. ncols`, in increasing order.
    pub fn iter_ncols(ncols: u8) -> (r: Vec<Color>)
        ensures
            r@.len() == ncols,
            forall|i: int| 0 <= i < ncols ==> #[trigger] r@[i] == Color(i as u8),
    {
        let mut r: Vec<Color> = Vec::new();
        let mut c: u8 = 0;
        while c < ncols
            invariant
                c <= ncols,
                r@.len() == c,
                forall|i: int| 0 <= i < c ==> #[trigger] r@[i] == Color(i as u8),
            decreases ncols - c,
        {
            r.push(Color(c));
            c = c + 1;
        }
        r
    }

    /// Reads a colour written in decimal.
    pub fn try_parse(code: &str) -> (r: Result<Color, CodeError>)
        ensures
            r == (if is_decimal(code@) && decimal_value(code@) <= 255 {
                Ok::<Color, CodeError>(Color(decimal_value(code@) as u8))
            } else {
                Err(CodeError::BadCode)
            }),
    {
        let n = code.unicode_len();
        if n == 0 {
            return Err(CodeError::BadCode);
        }
        let mut v: u32 = 0;
        let mut i: usize = 0;
        while i < n
            invariant
                n == code@.len(),
                i <= n,
                v <= 255,
                forall|j: int| 0 <= j < i ==> is_digit(#[trigger] code@[j]),
                v == decimal_value(code@.take(i as int)),
            decreases n - i,
        {
            let c = code.get_char(i);
            assert(code@.take(i + 1).drop_last() =~= code@.take(i as int));
            if !('0' <= c && c <= '9') {
                return Err(CodeError::BadCode);
            }
            let d = (c as u32) - ('0' as u32);
            if v * 10 + d > 255 {
                proof {
                    lemma_decimal_value_monotone(code@, i as int + 1);
                }
                return Err(CodeError::BadCode);
            }
            v = v * 10 + d;
            i = i + 1;
        }
        assert(code@.take(n as int) =~= code@);
        Ok(Color(v as u8))
    }
}

/// Reading more digits never lowers the value read so far.
pub proof fn lemma_decimal_value_monotone(s: Seq<char>, k: int)
    requires
        0 <= k <= s.len(),
    ensures
        decimal_value(s.take(k)) <= decimal_value(s),
    decreases s.len() - k,
{
    if k < s.len() {
        lemma_decimal_value_monotone(s, k + 1);
        assert(s.take(k + 1).drop_last() =~= s.take(k));
    } else {
        assert(s.take(k) =~= s);
    }
}

// ---------------------------------------------------------------------------
// Moves

/// Position of a move in the order `Stay < ToHalf < ToOther`.
pub open spec fn move_rank(m: Move) -> nat {
    match m {
        Move::Stay => 0,
        Move::ToHalf => 1,
        Move::ToOther => 2,
    }
}

/// The move of a given rank.
pub open spec fn move_of_rank(r: nat) -> Move {
    if r == 0 {
        Move::Stay
    } else if r == 1 {
        Move::ToHalf
    } else {
        Move::ToOther
    }
}

/// The letter of a move in short codes.
pub open spec fn move_letter(m: Move) -> char {
    match m {
        Move::Stay => 'S',
        Move::ToHalf => 'H',
        Move::ToOther => 'O',
    }
}

/// The move that a short-code letter stands for; lower case is accepted.
pub open spec fn move_of_letter(c: char) -> Option<Move> {
    if c == 'S' || c == 's' {
        Some(Move::Stay)
    } else if c == 'H' || c == 'h' {
        Some(Move::ToHalf)
    } else if c == 'O' || c == 'o' {
        Some(Move::ToOther)
    } else {
        None
    }
}

impl Move {
    /// The moves in increasing order.
    pub fn all() -> (r: Vec<Move>)
        ensures
            r@ == seq![Move::Stay, Move::ToHalf, Move::ToOther],
    {
        vec![Move::Stay, Move::ToHalf, Move::ToOther]
    }

    /// The rank of the move in the order `Stay < ToHalf < ToOther`.
    pub fn rank(&self) -> (r: u8)
        ensures
            r == move_rank(*self),
    {
        match self {
            Move::Stay => 0,
            Move::ToHalf => 1,
            Move::ToOther => 2,
        }
    }

    /// The one-letter short code of the move.
    pub fn as_code(&self) -> (r: &'static str)
        ensures
            r@ == seq![move_letter(*self)],
    {
        proof {
            reveal_strlit("S");
            reveal_strlit("H");
            reveal_strlit("O");
        }
        match self {
            Move::Stay => "S",
            Move::ToHalf => "H",
            Move::ToOther => "O",
        }
    }
}

/// The upper-case form of an ASCII letter; other characters are kept.
pub open spec fn ascii_upper(c: char) -> char {
    if 'a' <= c <= 'z' {
        ((c as u32 - 32) as u32) as char
    } else {
        c
    }
}

/// A text with its ASCII letters in upper case.
pub open spec fn ascii_upper_seq(s: Seq<char>) -> Seq<char> {
    s.map_values(|c: char| ascii_upper(c))
}

/// The move that a word stands for, in any case of its ASCII letters:
/// `S` or `STAY`; `H`, `HALF`, `TO_HALF` or `TOHALF`; `O`, `OTHER`,
/// `TO_OTHER` or `TOOTHER`.
pub open spec fn move_of_word(s: Seq<char>) -> Option<Move> {
    let u = ascii_upper_seq(s);
    if u == "S"@ || u == "STAY"@ {
        Some(Move::Stay)
    } else if u == "H"@ || u == "HALF"@ || u == "TO_HALF"@ || u == "TOHALF"@ {
        Some(Move::ToHalf)
    } else if u == "O"@ || u == "OTHER"@ || u == "TO_OTHER"@ || u == "TOOTHER"@ {
        Some(Move::ToOther)
    } else {
        None
    }
}

/// The upper-case form of an ASCII letter.
fn upper_char(c: char) -> (r: char)
    ensures
        r == ascii_upper(c),
{
    if 'a' <= c && c <= 'z' {
        (((c as u32) - 32) as u8) as char
    } else {
        c
    }
}

/// Whether a sequence of characters spells a word.
fn spells(s: &Vec<char>, word: &str) -> (r: bool)
    ensures
        r == (s@ == word@),
{
    let w = crate::text::chars_of(word);
    if s.len() != w.len() {
        return false;
    }
    let mut i: usize = 0;
    while i < s.len()
        invariant
            s.len() == w.len(),
            w@ == word@,
            i <= s.len(),
            forall|k: int| 0 <= k < i ==> s@[k] == w@[k],
        decreases s.len() - i,
    {
        if s[i] != w[i] {
            return false;
        }
        i = i + 1;
    }
    assert(s@ =~= w@);
    true
}

impl Move {
    /// Reads a move from a letter or a word, in any case of its ASCII
    /// letters.
    pub fn try_parse(code: &str) -> (r: Result<Move, CodeError>)
        ensures
            r == (match move_of_word(code@) {
                Some(m) => Ok::<Move, CodeError>(m),
                None => Err(CodeError::BadCode),
            }),
    {
        let cs = crate::text::chars_of(code);
        let mut u: Vec<char> = Vec::new();
        let mut i: usize = 0;
        while i < cs.len()
            invariant
                i <= cs.len(),
                cs@ == code@,
                u@ == ascii_upper_seq(cs@.take(i as int)),
            decreases cs.len() - i,
        {
            u.push(upper_char(cs[i]));
            i = i + 1;
            assert(u@ =~= ascii_upper_seq(cs@.take(i as int)));
        }
        assert(cs@.take(i as int) =~= cs@);
        if spells(&u, "S") || spells(&u, "STAY") {
            Ok(Move::Stay)
        } else if spells(&u, "H") || spells(&u, "HALF") || spells(&u, "TO_HALF") || spells(&u, "TOHALF") {
            Ok(Move::ToHalf)
        } else if spells(&u, "O") || spells(&u, "OTHER") || spells(&u, "TO_OTHER") || spells(&u, "TOOTHER") {
            Ok(Move::ToOther)
        } else {
            Err(CodeError::BadCode)
        }
    }
}

impl Default for Move {
    fn default() -> (r: Move)
        ensures
            r == Move::Stay,
    {
        Move::Stay
    }
}

impl PartialOrd for Move {
    fn partial_cmp(&self, other: &Move) -> (r: Option<core::cmp::Ordering>) {
        let a = self.rank();
        let b = other.rank();
        if a < b {
            Some(core::cmp::Ordering::Less)
        } else if a == b {
            Some(core::cmp::Ordering::Equal)
        } else {
            Some(core::cmp::Ordering::Greater)
        }
    }
}

impl vstd::std_specs::cmp::PartialOrdSpecImpl for Move {
    open spec fn obeys_partial_cmp_spec() -> bool {
        true
    }

    open spec fn partial_cmp_spec(&self, other: &Move) -> Option<core::cmp::Ordering> {
        if move_rank(*self) < move_rank(*other) {
            Some(core::cmp::Ordering::Less)
        } else if move_rank(*self) == move_rank(*other) {
            Some(core::cmp::Ordering::Equal)
        } else {
            Some(core::cmp::Ordering::Greater)
        }
    }
}

/// Moves are totally ordered, with `Stay < ToHalf < ToOther`.
pub proof fn lemma_move_order()
    ensures
        Move::Stay.partial_cmp_spec(&Move::ToHalf) == Some(core::cmp::Ordering::Less),
        Move::ToHalf.partial_cmp_spec(&Move::ToOther) == Some(core::cmp::Ordering::Less),
        forall|a: Move, b: Move|
            (#[trigger] a.partial_cmp_spec(&b) == Some(core::cmp::Ordering::Equal)) <==> a == b,
        forall|a: Move, b: Move|
            (#[trigger] a.partial_cmp_spec(&b) == Some(core::cmp::Ordering::Less)) <==> (
            b.partial_cmp_spec(&a) == Some(core::cmp::Ordering::Greater)),
        forall|a: Move, b: Move, c: Move|
            #[trigger] a.partial_cmp_spec(&b) == Some(core::cmp::Ordering::Less)
                && #[trigger] b.partial_cmp_spec(&c) == Some(core::cmp::Ordering::Less)
                ==> a.partial_cmp_spec(&c) == Some(core::cmp::Ordering::Less),
        forall|a: Move, b: Move| #[trigger] a.partial_cmp_spec(&b) is Some,
{
}

// ---------------------------------------------------------------------------
// Distances

/// The distance that a short-code letter stands for.
pub open spec fn distance_of_letter(c: char) -> Option<Distance> {
    if c == 's' {
        Some(Distance::Same)
    } else if c == 'd' || c == 'n' {
        Some(Distance::Near)
    } else if c == 'f' {
        Some(Distance::Far)
    } else {
        None
    }
}

impl Distance {
    /// The distances in increasing order.
    pub fn all() -> (r: Vec<Distance>)
        ensures
            r@ == seq![Distance::Same, Distance::Near, Distance::Far],
    {
        vec![Distance::Same, Distance::Near, Distance::Far]
    }

    /// Reads a distance from its one-letter code: `s`, `d` or `n`, `f`.
    pub fn try_parse(code: &str) -> (r: Result<Distance, CodeError>)
        ensures
            r == (if code@.len() == 1 && distance_of_letter(code@[0]) is Some {
                Ok::<Distance, CodeError>(distance_of_letter(code@[0])->0)
            } else {
                Err(CodeError::BadCode)
            }),
    {
        if code.unicode_len() != 1 {
            return Err(CodeError::BadCode);
        }
        let c = code.get_char(0);
        distance_from_char(c)
    }
}

/// Reads a distance from its letter.
pub fn distance_from_char(c: char) -> (r: Result<Distance, CodeError>)
    ensures
        r == (match distance_of_letter(c) {
            Some(d) => Ok::<Distance, CodeError>(d),
            None => Err(CodeError::BadCode),
        }),
{
    if c == 's' {
        Ok(Distance::Same)
    } else if c == 'd' || c == 'n' {
        Ok(Distance::Near)
    } else if c == 'f' {
        Ok(Distance::Far)
    } else {
        Err(CodeError::BadCode)
    }
}

impl Default for Distance {
    fn default() -> (r: Distance)
        ensures
            r == Distance::Same,
    {
        Distance::Same
    }
}

// ---------------------------------------------------------------------------
// Model kinds

impl ModelKind {
    /// The kinds of models.
    pub fn all() -> (r: Vec<ModelKind>)
        ensures
            r@ == seq![ModelKind::Full, ModelKind::Internal, ModelKind::External],
    {
        vec![ModelKind::Full, ModelKind::Internal, ModelKind::External]
    }

    /// Reads a model kind from its letter: `F`, `I` or `E`.
    pub fn from_letter(c: char) -> (r: Result<ModelKind, CodeError>)
        ensures
            r == (match model_kind_of_letter(c) {
                Some(k) => Ok::<ModelKind, CodeError>(k),
                None => Err(CodeError::BadCode),
            }),
    {
        if c == 'F' {
            Ok(ModelKind::Full)
        } else if c == 'I' {
            Ok(ModelKind::Internal)
        } else if c == 'E' {
            Ok(ModelKind::External)
        } else {
            Err(CodeError::BadCode)
        }
    }
}

impl<'a> TryFrom<&'a str> for ModelKind {
    type Error = CodeError;

    fn try_from(value: &'a str) -> (r: Result<ModelKind, CodeError>) {
        if value.unicode_len() != 1 {
            return Err(CodeError::BadCode);
        }
        ModelKind::from_letter(value.get_char(0))
    }
}

impl<'a> vstd::std_specs::convert::TryFromSpecImpl<&'a str> for ModelKind {
    open spec fn obeys_try_from_spec() -> bool {
        true
    }

    open spec fn try_from_spec(v: &'a str) -> Result<ModelKind, CodeError> {
        if v@.len() == 1 && model_kind_of_letter(v@[0]) is Some {
            Ok(model_kind_of_letter(v@[0])->0)
        } else {
            Err(CodeError::BadCode)
        }
    }
}

impl<'a> TryFrom<&'a str> for Color {
    type Error = CodeError;

    fn try_from(value: &'a str) -> (r: Result<Color, CodeError>) {
        Color::try_parse(value)
    }
}

impl<'a> vstd::std_specs::convert::TryFromSpecImpl<&'a str> for Color {
    open spec fn obeys_try_from_spec() -> bool {
        true
    }

    open spec fn try_from_spec(v: &'a str) -> Result<Color, CodeError> {
        if is_decimal(v@) && decimal_value(v@) <= 255 {
            Ok(Color(decimal_value(v@) as u8))
        } else {
            Err(CodeError::BadCode)
        }
    }
}

/// The model kind that a letter stands for.
pub open spec fn model_kind_of_letter(c: char) -> Option<ModelKind> {
    if c == 'F' {
        Some(ModelKind::Full)
    } else if c == 'I' {
        Some(ModelKind::Internal)
    } else if c == 'E' {
        Some(ModelKind::External)
    } else {
        None
    }
}

// ---------------------------------------------------------------------------
// Schedulers

/// The strength order of schedulers, as a partial comparison.
///
/// `Centralized` and `FSYNC` are the two minima, `SSYNC` is above both, the
/// asynchronous family is above `SSYNC` and topped by the chain
/// `ASYNC < ASYNC_Regular < ASYNC_Safe`; below `ASYNC` sit the branches
/// `ASYNC_LC_Strict < ASYNC_LC_Atomic`, `ASYNC_CM_Atomic`, and
/// `ASYNC_Move_Atomic < ASYNC_Move_Regular < ASYNC_Move_Safe`.
pub open spec fn scheduler_cmp(a: Scheduler, b: Scheduler) -> Option<core::cmp::Ordering> {
    if a == b {
        Some(core::cmp::Ordering::Equal)
    } else if (a == Scheduler::Centralized && b == Scheduler::FSYNC) || (a == Scheduler::FSYNC && b == Scheduler::Centralized) {
        None
    } else if a == Scheduler::Centralized || a == Scheduler::FSYNC {
        Some(core::cmp::Ordering::Less)
    } else if b == Scheduler::Centralized || b == Scheduler::FSYNC {
        Some(core::cmp::Ordering::Greater)
    } else if a == Scheduler::SSYNC {
        Some(core::cmp::Ordering::Less)
    } else if b == Scheduler::SSYNC {
        Some(core::cmp::Ordering::Greater)
    } else if b == Scheduler::ASYNC_Safe {
        Some(core::cmp::Ordering::Less)
    } else if a == Scheduler::ASYNC_Safe {
        Some(core::cmp::Ordering::Greater)
    } else if b == Scheduler::ASYNC_Regular {
        Some(core::cmp::Ordering::Less)
    } else if a == Scheduler::ASYNC_Regular {
        Some(core::cmp::Ordering::Greater)
    } else if b == Scheduler::ASYNC {
        Some(core::cmp::Ordering::Less)
    } else if a == Scheduler::ASYNC {
        Some(core::cmp::Ordering::Greater)
    } else if a == Scheduler::ASYNC_LC_Strict && b == Scheduler::ASYNC_LC_Atomic {
        Some(core::cmp::Ordering::Less)
    } else if a == Scheduler::ASYNC_LC_Atomic && b == Scheduler::ASYNC_LC_Strict {
        Some(core::cmp::Ordering::Greater)
    } else if a == Scheduler::ASYNC_Move_Atomic && (b == Scheduler::ASYNC_Move_Regular || b == Scheduler::ASYNC_Move_Safe) {
        Some(core::cmp::Ordering::Less)
    } else if (a == Scheduler::ASYNC_Move_Regular || a == Scheduler::ASYNC_Move_Safe) && b == Scheduler::ASYNC_Move_Atomic {
        Some(core::cmp::Ordering::Greater)
    } else if a == Scheduler::ASYNC_Move_Regular && b == Scheduler::ASYNC_Move_Safe {
        Some(core::cmp::Ordering::Less)
    } else if a == Scheduler::ASYNC_Move_Safe && b == Scheduler::ASYNC_Move_Regular {
        Some(core::cmp::Ordering::Greater)
    } else {
        None
    }
}

/// The name of a scheduler, as its variant is written.
pub open spec fn scheduler_name(s: Scheduler) -> Seq<char> {
    match s {
        Scheduler::Centralized => "Centralized"@,
        Scheduler::FSYNC => "FSYNC"@,
        Scheduler::SSYNC => "SSYNC"@,
        Scheduler::ASYNC_LC_Strict => "ASYNC_LC_Strict"@,
        Scheduler::ASYNC_LC_Atomic => "ASYNC_LC_Atomic"@,
        Scheduler::ASYNC_CM_Atomic => "ASYNC_CM_Atomic"@,
        Scheduler::ASYNC_Move_Atomic => "ASYNC_Move_Atomic"@,
        Scheduler::ASYNC_Move_Regular => "ASYNC_Move_Regular"@,
        Scheduler::ASYNC_Move_Safe => "ASYNC_Move_Safe"@,
        Scheduler::ASYNC => "ASYNC"@,
        Scheduler::ASYNC_Regular => "ASYNC_Regular"@,
        Scheduler::ASYNC_Safe => "ASYNC_Safe"@,
    }
}

/// The name of a scheduler in the verifier's model: its name in upper case.
pub open spec fn scheduler_macro_name(s: Scheduler) -> Seq<char> {
    match s {
        Scheduler::Centralized => "CENTRALIZED"@,
        Scheduler::FSYNC => "FSYNC"@,
        Scheduler::SSYNC => "SSYNC"@,
        Scheduler::ASYNC_LC_Strict => "ASYNC_LC_STRICT"@,
        Scheduler::ASYNC_LC_Atomic => "ASYNC_LC_ATOMIC"@,
        Scheduler::ASYNC_CM_Atomic => "ASYNC_CM_ATOMIC"@,
        Scheduler::ASYNC_Move_Atomic => "ASYNC_MOVE_ATOMIC"@,
        Scheduler::ASYNC_Move_Regular => "ASYNC_MOVE_REGULAR"@,
        Scheduler::ASYNC_Move_Safe => "ASYNC_MOVE_SAFE"@,
        Scheduler::ASYNC => "ASYNC"@,
        Scheduler::ASYNC_Regular => "ASYNC_REGULAR"@,
        Scheduler::ASYNC_Safe => "ASYNC_SAFE"@,
    }
}

impl Scheduler {
    /// All the schedulers.
    pub fn all() -> (r: Vec<Scheduler>)
        ensures
            r@.len() == 12,
            forall|s: Scheduler| r@.contains(s),
    {
        let r = vec![
            Scheduler::Centralized,
            Scheduler::FSYNC,
            Scheduler::SSYNC,
            Scheduler::ASYNC_LC_Strict,
            Scheduler::ASYNC_LC_Atomic,
            Scheduler::ASYNC_CM_Atomic,
            Scheduler::ASYNC_Move_Atomic,
            Scheduler::ASYNC_Move_Regular,
            Scheduler::ASYNC_Move_Safe,
            Scheduler::ASYNC,
            Scheduler::ASYNC_Regular,
            Scheduler::ASYNC_Safe,
        ];
        assert forall|s: Scheduler| r@.contains(s) by {
            match s {
                Scheduler::Centralized => assert(r@[0] == s),
                Scheduler::FSYNC => assert(r@[1] == s),
                Scheduler::SSYNC => assert(r@[2] == s),
                Scheduler::ASYNC_LC_Strict => assert(r@[3] == s),
                Scheduler::ASYNC_LC_Atomic => assert(r@[4] == s),
                Scheduler::ASYNC_CM_Atomic => assert(r@[5] == s),
                Scheduler::ASYNC_Move_Atomic => assert(r@[6] == s),
                Scheduler::ASYNC_Move_Regular => assert(r@[7] == s),
                Scheduler::ASYNC_Move_Safe => assert(r@[8] == s),
                Scheduler::ASYNC => assert(r@[9] == s),
                Scheduler::ASYNC_Regular => assert(r@[10] == s),
                Scheduler::ASYNC_Safe => assert(r@[11] == s),
            }
        }
        r
    }

    /// The name of the scheduler, as its variant is written.
    pub fn name(&self) -> (r: &'static str)
        ensures
            r@ == scheduler_name(*self),
    {
        match self {
            Scheduler::Centralized => "Centralized",
            Scheduler::FSYNC => "FSYNC",
            Scheduler::SSYNC => "SSYNC",
            Scheduler::ASYNC_LC_Strict => "ASYNC_LC_Strict",
            Scheduler::ASYNC_LC_Atomic => "ASYNC_LC_Atomic",
            Scheduler::ASYNC_CM_Atomic => "ASYNC_CM_Atomic",
            Scheduler::ASYNC_Move_Atomic => "ASYNC_Move_Atomic",
            Scheduler::ASYNC_Move_Regular => "ASYNC_Move_Regular",
            Scheduler::ASYNC_Move_Safe => "ASYNC_Move_Safe",
            Scheduler::ASYNC => "ASYNC",
            Scheduler::ASYNC_Regular => "ASYNC_Regular",
            Scheduler::ASYNC_Safe => "ASYNC_Safe",
        }
    }

    /// The name of the scheduler in the verifier's model (upper case).
    pub fn as_promela(&self) -> (r: String)
        ensures
            r@ == scheduler_macro_name(*self),
    {
        let s = match self {
            Scheduler::Centralized => "CENTRALIZED",
            Scheduler::FSYNC => "FSYNC",
            Scheduler::SSYNC => "SSYNC",
            Scheduler::ASYNC_LC_Strict => "ASYNC_LC_STRICT",
            Scheduler::ASYNC_LC_Atomic => "ASYNC_LC_ATOMIC",
            Scheduler::ASYNC_CM_Atomic => "ASYNC_CM_ATOMIC",
            Scheduler::ASYNC_Move_Atomic => "ASYNC_MOVE_ATOMIC",
            Scheduler::ASYNC_Move_Regular => "ASYNC_MOVE_REGULAR",
            Scheduler::ASYNC_Move_Safe => "ASYNC_MOVE_SAFE",
            Scheduler::ASYNC => "ASYNC",
            Scheduler::ASYNC_Regular => "ASYNC_REGULAR",
            Scheduler::ASYNC_Safe => "ASYNC_SAFE",
        };
        String::from_str(s)
    }
}

impl PartialOrd for Scheduler {
    fn partial_cmp(&self, other: &Scheduler) -> (r: Option<core::cmp::Ordering>) {
        let a = *self;
        let b = *other;
        if a == b {
            Some(core::cmp::Ordering::Equal)
        } else if (a == Scheduler::Centralized && b == Scheduler::FSYNC) || (a == Scheduler::FSYNC && b == Scheduler::Centralized) {
            None
        } else if a == Scheduler::Centralized || a == Scheduler::FSYNC {
            Some(core::cmp::Ordering::Less)
        } else if b == Scheduler::Centralized || b == Scheduler::FSYNC {
            Some(core::cmp::Ordering::Greater)
        } else if a == Scheduler::SSYNC {
            Some(core::cmp::Ordering::Less)
        } else if b == Scheduler::SSYNC {
            Some(core::cmp::Ordering::Greater)
        } else if b == Scheduler::ASYNC_Safe {
            Some(core::cmp::Ordering::Less)
        } else if a == Scheduler::ASYNC_Safe {
            Some(core::cmp::Ordering::Greater)
        } else if b == Scheduler::ASYNC_Regular {
            Some(core::cmp::Ordering::Less)
        } else if a == Scheduler::ASYNC_Regular {
            Some(core::cmp::Ordering::Greater)
        } else if b == Scheduler::ASYNC {
            Some(core::cmp::Ordering::Less)
        } else if a == Scheduler::ASYNC {
            Some(core::cmp::Ordering::Greater)
        } else if a == Scheduler::ASYNC_LC_Strict && b == Scheduler::ASYNC_LC_Atomic {
            Some(core::cmp::Ordering::Less)
        } else if a == Scheduler::ASYNC_LC_Atomic && b == Scheduler::ASYNC_LC_Strict {
            Some(core::cmp::Ordering::Greater)
        } else if a == Scheduler::ASYNC_Move_Atomic && (b == Scheduler::ASYNC_Move_Regular || b == Scheduler::ASYNC_Move_Safe) {
            Some(core::cmp::Ordering::Less)
        } else if (a == Scheduler::ASYNC_Move_Regular || a == Scheduler::ASYNC_Move_Safe) && b == Scheduler::ASYNC_Move_Atomic {
            Some(core::cmp::Ordering::Greater)
        } else if a == Scheduler::ASYNC_Move_Regular && b == Scheduler::ASYNC_Move_Safe {
            Some(core::cmp::Ordering::Less)
        } else if a == Scheduler::ASYNC_Move_Safe && b == Scheduler::ASYNC_Move_Regular {
            Some(core::cmp::Ordering::Greater)
        } else {
            None
        }
    }
}

impl vstd::std_specs::cmp::PartialOrdSpecImpl for Scheduler {
    open spec fn obeys_partial_cmp_spec() -> bool {
        true
    }

    open spec fn partial_cmp_spec(&self, other: &Scheduler) -> Option<core::cmp::Ordering> {
        scheduler_cmp(*self, *other)
    }
}

/// The scheduler order is reflexive, and `Centralized` and `FSYNC` are
/// incomparable.
pub proof fn lemma_scheduler_order_reflexive()
    ensures
        forall|a: Scheduler| #[trigger] scheduler_cmp(a, a) == Some(core::cmp::Ordering::Equal),
        scheduler_cmp(Scheduler::Centralized, Scheduler::FSYNC) is None,
{
}

/// The outcome of a comparison made the other way round.
pub open spec fn reversed(o: Option<core::cmp::Ordering>) -> Option<core::cmp::Ordering> {
    match o {
        Some(core::cmp::Ordering::Less) => Some(core::cmp::Ordering::Greater),
        Some(core::cmp::Ordering::Greater) => Some(core::cmp::Ordering::Less),
        other => other,
    }
}

/// The scheduler order is antisymmetric: comparing the other way round gives
/// the reverse outcome, and only equal schedulers compare as equal.
pub proof fn lemma_scheduler_order_antisymmetric()
    ensures
        forall|a: Scheduler, b: Scheduler|
            #[trigger] scheduler_cmp(a, b) == reversed(scheduler_cmp(b, a)),
        forall|a: Scheduler, b: Scheduler|
            #[trigger] scheduler_cmp(a, b) == Some(core::cmp::Ordering::Equal) ==> a == b,
{
}

/// The scheduler order is transitive.
#[verifier::rlimit(100)]
pub proof fn lemma_scheduler_order_transitive(a: Scheduler, b: Scheduler, c: Scheduler)
    requires
        scheduler_cmp(a, b) == Some(core::cmp::Ordering::Less),
        scheduler_cmp(b, c) == Some(core::cmp::Ordering::Less),
    ensures
        scheduler_cmp(a, c) == Some(core::cmp::Ordering::Less),
{
}

} // verus!
