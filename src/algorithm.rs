//! Guards, actions, rules and algorithms, with their short codes.
use vstd::prelude::*;

use crate::common::{
    decimal, digit_char, digit_value, distance_of_letter, is_digit, move_letter, move_of_letter,
    move_rank, CodeError, Color, Distance, ModelKind, Move,
};
use crate::text::{
    char_seqs, chars_of, join_parts, joined, lemma_split_joined, no_underscore, push_char,
    push_decimal, split_on_underscores, split_underscore, string_views,
};

verus! {

/// What a robot observes of itself and of the other robot.
#[derive(Debug, Clone, Copy, PartialEq, Eq, Structural, PartialOrd, Ord, Hash)]
pub enum Guard {
    /// The other robot's colour.
    LExternal(Color),
    /// The robot's own colour.
    LInternal(Color),
    /// The robot's own colour and the other's.
    LFull(Color, Color),
    /// The other robot's colour and the distance to it.
    External(Color, Distance),
    /// The robot's own colour and the distance to the other.
    Internal(Color, Distance),
    /// Both colours (own, then other) and the distance.
    Full(Color, Color, Distance),
}

/// A command: the next colour of the robot and its movement.
#[derive(Debug, Clone, Copy, PartialEq, Eq, Structural, PartialOrd, Ord, Hash)]
pub struct Action(pub Color, pub Move);

/// A guard with the action taken when it holds.
#[derive(Debug, Clone, Copy, PartialEq, Eq, Structural, PartialOrd, Ord)]
pub struct Rule(pub Guard, pub Action);

// ---------------------------------------------------------------------------
// Guards

impl Guard {
    /// The kind of model that the guard belongs to.
    pub open spec fn spec_model_kind(self) -> ModelKind {
        match self {
            Guard::Full(..) | Guard::LFull(..) => ModelKind::Full,
            Guard::External(..) | Guard::LExternal(..) => ModelKind::External,
            Guard::Internal(..) | Guard::LInternal(..) => ModelKind::Internal,
        }
    }

    /// Whether the guard observes no distance (class L).
    pub open spec fn spec_class_l(self) -> bool {
        self is LExternal || self is LInternal || self is LFull
    }

    /// Whether the guard observes both robots at the same place.
    pub open spec fn spec_is_gathered(self) -> bool {
        match self {
            Guard::External(_, d) | Guard::Internal(_, d) | Guard::Full(_, _, d) => d
                == Distance::Same,
            _ => false,
        }
    }

    /// Whether the observed colours are equal (true with a single colour).
    pub open spec fn spec_same_colors(self) -> bool {
        match self {
            Guard::LFull(a, b) | Guard::Full(a, b, _) => a == b,
            _ => true,
        }
    }

    /// The robot's own colour, where observed.
    pub open spec fn spec_my_color(self) -> Option<Color> {
        match self {
            Guard::LExternal(_) | Guard::External(_, _) => None,
            Guard::LInternal(c) | Guard::Internal(c, _) | Guard::LFull(c, _) | Guard::Full(
                c,
                _,
                _,
            ) => Some(c),
        }
    }

    /// The other robot's colour, where observed.
    pub open spec fn spec_other_color(self) -> Option<Color> {
        match self {
            Guard::LInternal(_) | Guard::Internal(_, _) => None,
            Guard::LExternal(c) | Guard::External(c, _) | Guard::LFull(_, c) | Guard::Full(
                _,
                c,
                _,
            ) => Some(c),
        }
    }

    /// The distance, where observed.
    pub open spec fn spec_distance(self) -> Option<Distance> {
        match self {
            Guard::External(_, d) | Guard::Internal(_, d) | Guard::Full(_, _, d) => Some(d),
            _ => None,
        }
    }

    /// The kind of model that the guard belongs to.
    pub fn model_kind(&self) -> (r: ModelKind)
        ensures
            r == self.spec_model_kind(),
    {
        match self {
            Guard::Full(..) | Guard::LFull(..) => ModelKind::Full,
            Guard::External(..) | Guard::LExternal(..) => ModelKind::External,
            Guard::Internal(..) | Guard::LInternal(..) => ModelKind::Internal,
        }
    }

    /// Whether the guard belongs to a class-L model (no distance observed).
    #[allow(non_snake_case)]
    pub fn class_L(&self) -> (r: bool)
        ensures
            r == self.spec_class_l(),
    {
        match self {
            Guard::LExternal(_) | Guard::LInternal(_) | Guard::LFull(_, _) => true,
            _ => false,
        }
    }

    /// Whether the guard observes both robots at the same place.
    pub fn is_gathered(&self) -> (r: bool)
        ensures
            r == self.spec_is_gathered(),
    {
        match self {
            Guard::External(_, d) | Guard::Internal(_, d) | Guard::Full(_, _, d) => *d
                == Distance::Same,
            _ => false,
        }
    }

    /// Whether the colours that the guard observes are equal (true when it
    /// observes a single colour).
    pub fn same_colors(&self) -> (r: bool)
        ensures
            r == self.spec_same_colors(),
    {
        match self {
            Guard::LFull(a, b) | Guard::Full(a, b, _) => *a == *b,
            _ => true,
        }
    }

    /// The robot's own colour, where the guard observes it.
    pub fn my_color(&self) -> (r: Option<Color>)
        ensures
            r == self.spec_my_color(),
    {
        match self {
            Guard::LExternal(_) | Guard::External(_, _) => None,
            Guard::LInternal(c) | Guard::Internal(c, _) | Guard::LFull(c, _) | Guard::Full(
                c,
                _,
                _,
            ) => Some(*c),
        }
    }

    /// The distance to the other robot, where the guard observes it.
    pub fn distance(&self) -> (r: Option<Distance>)
        ensures
            r == self.spec_distance(),
    {
        match self {
            Guard::External(_, d) | Guard::Internal(_, d) | Guard::Full(_, _, d) => Some(*d),
            _ => None,
        }
    }

    /// The other robot's colour, where the guard observes it.
    pub fn other_color(&self) -> (r: Option<Color>)
        ensures
            r == self.spec_other_color(),
    {
        match self {
            Guard::LInternal(_) | Guard::Internal(_, _) => None,
            Guard::LExternal(c) | Guard::External(c, _) | Guard::LFull(_, c) | Guard::Full(
                _,
                c,
                _,
            ) => Some(*c),
        }
    }
}

// ---------------------------------------------------------------------------
// The canonical guard list of a model

/// Number of guards of a model.
pub open spec fn guard_count(model: ModelKind, n: nat, class_l: bool) -> nat {
    let basic = match model {
        ModelKind::Full => n * n,
        _ => n,
    };
    if class_l {
        basic
    } else {
        2 * basic
    }
}

/// The guards `Full(c1, c2, d)` for a fixed distance, `c1` slow and `c2` fast.
pub open spec fn full_block(n: nat, d: Distance) -> Seq<Guard> {
    Seq::new(n * n, |i: int| Guard::Full(Color((i / n as int) as u8), Color((i % n as int) as u8), d))
}

/// The guards `LFull(c1, c2)`, `c1` slow and `c2` fast.
pub open spec fn lfull_block(n: nat) -> Seq<Guard> {
    Seq::new(n * n, |i: int| Guard::LFull(Color((i / n as int) as u8), Color((i % n as int) as u8)))
}

/// The single-colour guards of a kind and a distance (class L when `d` is
/// `None`), by increasing colour.
pub open spec fn single_block(model: ModelKind, n: nat, d: Option<Distance>) -> Seq<Guard> {
    Seq::new(
        n,
        |i: int|
            match (model, d) {
                (ModelKind::External, None) => Guard::LExternal(Color(i as u8)),
                (ModelKind::External, Some(d)) => Guard::External(Color(i as u8), d),
                (_, None) => Guard::LInternal(Color(i as u8)),
                (_, Some(d)) => Guard::Internal(Color(i as u8), d),
            },
    )
}

/// The canonical guard list of a model: distance slowest (`Same`, then
/// `Near`), then the robot's own colour, then the other's colour fastest.
pub open spec fn canonical_guards(model: ModelKind, n: nat, class_l: bool) -> Seq<Guard> {
    match model {
        ModelKind::Full => if class_l {
            lfull_block(n)
        } else {
            full_block(n, Distance::Same) + full_block(n, Distance::Near)
        },
        _ => if class_l {
            single_block(model, n, None)
        } else {
            single_block(model, n, Some(Distance::Same)) + single_block(
                model,
                n,
                Some(Distance::Near),
            )
        },
    }
}

/// Quotient and remainder of `c1 * n + c2` by `n`.
proof fn lemma_div_mod_pair(c1: int, c2: int, n: int)
    requires
        0 <= c2 < n,
        0 <= c1,
    ensures
        (c1 * n + c2) / n == c1,
        (c1 * n + c2) % n == c2,
{
    vstd::arithmetic::div_mod::lemma_fundamental_div_mod_converse(c1 * n + c2, n, c1, c2);
}

/// An index below `n * n` has quotient and remainder by `n` below `n`.
proof fn lemma_div_mod_square(i: int, n: int)
    requires
        0 <= i < n * n,
        n > 0,
    ensures
        0 <= i / n < n,
        0 <= i % n < n,
{
    vstd::arithmetic::div_mod::lemma_fundamental_div_mod(i, n);
    vstd::arithmetic::div_mod::lemma_mod_pos_bound(i, n);
    let q = i / n;
    assert(n * q <= i);
    if q >= n {
        assert(n * q >= n * n) by (nonlinear_arith)
            requires
                q >= n,
                n > 0,
        ;
    }
    if q < 0 {
        assert(n * q < 0) by (nonlinear_arith)
            requires
                q < 0,
                n > 0,
        ;
    }
}

/// What each guard of a canonical list looks like: its colours are below
/// `n`, its distance is not `Far`, and its shape is that of the model.
pub proof fn lemma_canonical_guards_shape(model: ModelKind, n: nat, class_l: bool)
    ensures
        canonical_guards(model, n, class_l).len() == guard_count(model, n, class_l),
        forall|i: int|
            0 <= i < canonical_guards(model, n, class_l).len() ==> {
                let g = #[trigger] canonical_guards(model, n, class_l)[i];
                &&& g.spec_model_kind() == model
                &&& g.spec_class_l() == class_l
                &&& g.spec_distance() != Some(Distance::Far)
                &&& (g.spec_my_color() matches Some(c) ==> c.0 < n)
                &&& (g.spec_other_color() matches Some(c) ==> c.0 < n)
            },
{
    let gs = canonical_guards(model, n, class_l);
    assert forall|i: int| 0 <= i < gs.len() implies {
        let g = #[trigger] gs[i];
        &&& g.spec_model_kind() == model
        &&& g.spec_class_l() == class_l
        &&& g.spec_distance() != Some(Distance::Far)
        &&& (g.spec_my_color() matches Some(c) ==> c.0 < n)
        &&& (g.spec_other_color() matches Some(c) ==> c.0 < n)
    } by {
        if model == ModelKind::Full {
            let nn = (n * n) as int;
            let j = if class_l || i < nn { i } else { i - nn };
            lemma_div_mod_square(j, n as int);
        }
    }
}

impl Guard {
    /// Number of guards of a model.
    pub fn number_for_model(model: ModelKind, num_colors: u8, class_l: bool) -> (r: usize)
        ensures
            r == guard_count(model, num_colors as nat, class_l),
    {
        let n = num_colors as usize;
        let basic: usize = match model {
            ModelKind::Full => {
                assert(n * n <= 255 * 255) by (nonlinear_arith)
                    requires
                        n <= 255,
                ;
                n * n
            },
            _ => n,
        };
        if class_l {
            basic
        } else {
            2 * basic
        }
    }

    /// The canonical guard list of a model.
    pub fn all_for_model(model: ModelKind, num_colors: u8, class_l: bool) -> (r: Vec<Guard>)
        ensures
            r@ == canonical_guards(model, num_colors as nat, class_l),
    {
        let mut r: Vec<Guard> = Vec::new();
        match model {
            ModelKind::Full => {
                if class_l {
                    push_pairs(&mut r, num_colors, None);
                } else {
                    push_pairs(&mut r, num_colors, Some(Distance::Same));
                    push_pairs(&mut r, num_colors, Some(Distance::Near));
                }
            },
            _ => {
                if class_l {
                    push_singles(&mut r, model, num_colors, None);
                } else {
                    push_singles(&mut r, model, num_colors, Some(Distance::Same));
                    push_singles(&mut r, model, num_colors, Some(Distance::Near));
                }
            },
        }
        assert(r@ =~= canonical_guards(model, num_colors as nat, class_l));
        r
    }
}

/// Appends the guards on two colours, own colour slow and other's fast: of
/// class L when `d` is `None`.
fn push_pairs(r: &mut Vec<Guard>, n: u8, d: Option<Distance>)
    ensures
        final(r)@ == old(r)@ + match d {
            None => lfull_block(n as nat),
            Some(d) => full_block(n as nat, d),
        },
{
    let ghost block = match d {
        None => lfull_block(n as nat),
        Some(d) => full_block(n as nat, d),
    };
    let ghost start = r@;
    let mut c1: u8 = 0;
    while c1 < n
        invariant
            c1 <= n,
            block == match d {
                None => lfull_block(n as nat),
                Some(d) => full_block(n as nat, d),
            },
            r@ == start + block.take(c1 as int * n as int),
        decreases n - c1,
    {
        let mut c2: u8 = 0;
        while c2 < n
            invariant
                c1 < n,
                c2 <= n,
                block == match d {
                    None => lfull_block(n as nat),
                    Some(d) => full_block(n as nat, d),
                },
                r@ == start + block.take(c1 as int * n as int + c2 as int),
            decreases n - c2,
        {
            let g = match d {
                None => Guard::LFull(Color(c1), Color(c2)),
                Some(d) => Guard::Full(Color(c1), Color(c2), d),
            };
            let ghost k = c1 as int * n as int + c2 as int;
            proof {
                lemma_div_mod_pair(c1 as int, c2 as int, n as int);
                assert(k < n as int * n as int) by (nonlinear_arith)
                    requires
                        k == c1 as int * n as int + c2 as int,
                        c1 < n,
                        c2 < n,
                ;
                assert(block[k] == g);
            }
            r.push(g);
            c2 = c2 + 1;
            assert(r@ =~= start + block.take(c1 as int * n as int + c2 as int));
        }
        c1 = c1 + 1;
        assert(c1 as int * n as int == (c1 - 1) as int * n as int + n as int) by (nonlinear_arith);
    }
    assert(block.take(n as int * n as int) =~= block);
}

/// Appends the single-colour guards of a kind, by increasing colour: of class
/// L when `d` is `None`.
fn push_singles(r: &mut Vec<Guard>, model: ModelKind, n: u8, d: Option<Distance>)
    requires
        model != ModelKind::Full,
    ensures
        final(r)@ == old(r)@ + single_block(model, n as nat, d),
{
    let ghost start = r@;
    let mut c: u8 = 0;
    while c < n
        invariant
            c <= n,
            model != ModelKind::Full,
            r@ == start + single_block(model, n as nat, d).take(c as int),
        decreases n - c,
    {
        let g = match (model, d) {
            (ModelKind::External, None) => Guard::LExternal(Color(c)),
            (ModelKind::External, Some(d)) => Guard::External(Color(c), d),
            (_, None) => Guard::LInternal(Color(c)),
            (_, Some(d)) => Guard::Internal(Color(c), d),
        };
        r.push(g);
        c = c + 1;
        assert(r@ =~= start + single_block(model, n as nat, d).take(c as int));
    }
    assert(single_block(model, n as nat, d).take(n as int) =~= single_block(model, n as nat, d));
}

// ---------------------------------------------------------------------------
// Short codes of guards and actions

/// The code of a colour: its decimal notation.
pub open spec fn color_code(c: Color) -> Seq<char> {
    decimal(c.0 as nat)
}

/// The letter of a distance in guard codes: `s` when gathered, else `d`.
pub open spec fn distance_letter(d: Distance) -> char {
    if d == Distance::Same {
        's'
    } else {
        'd'
    }
}

/// The short code of a guard: its colours, then its distance letter.
pub open spec fn guard_code(g: Guard) -> Seq<char> {
    match g {
        Guard::LExternal(c) | Guard::LInternal(c) => color_code(c),
        Guard::LFull(a, b) => color_code(a) + color_code(b),
        Guard::External(c, d) | Guard::Internal(c, d) => color_code(c).push(distance_letter(d)),
        Guard::Full(a, b, d) => (color_code(a) + color_code(b)).push(distance_letter(d)),
    }
}

/// The colour of a digit.
pub open spec fn color_of_digit(c: char) -> Color {
    Color(digit_value(c) as u8)
}

/// The guard that a code stands for in a model, if any: one digit per colour
/// of the model's guards, then a distance letter unless of class L.
pub open spec fn guard_of_code(model: ModelKind, class_l: bool, s: Seq<char>) -> Option<Guard> {
    match model {
        ModelKind::Full => if class_l {
            if s.len() == 2 && is_digit(s[0]) && is_digit(s[1]) {
                Some(Guard::LFull(color_of_digit(s[0]), color_of_digit(s[1])))
            } else {
                None
            }
        } else {
            if s.len() == 3 && is_digit(s[0]) && is_digit(s[1]) && distance_of_letter(s[2]) is Some {
                Some(Guard::Full(color_of_digit(s[0]), color_of_digit(s[1]), distance_of_letter(s[2])->0))
            } else {
                None
            }
        },
        _ => if class_l {
            if s.len() == 1 && is_digit(s[0]) {
                Some(
                    if model == ModelKind::External {
                        Guard::LExternal(color_of_digit(s[0]))
                    } else {
                        Guard::LInternal(color_of_digit(s[0]))
                    },
                )
            } else {
                None
            }
        } else {
            if s.len() == 2 && is_digit(s[0]) && distance_of_letter(s[1]) is Some {
                Some(
                    if model == ModelKind::External {
                        Guard::External(color_of_digit(s[0]), distance_of_letter(s[1])->0)
                    } else {
                        Guard::Internal(color_of_digit(s[0]), distance_of_letter(s[1])->0)
                    },
                )
            } else {
                None
            }
        },
    }
}

/// The short code of an action: its move letter, then its colour.
pub open spec fn action_code(a: Action) -> Seq<char> {
    seq![move_letter(a.1)] + color_code(a.0)
}

/// The action that a code stands for, if any: a move letter and a digit.
pub open spec fn action_of_code(s: Seq<char>) -> Option<Action> {
    if s.len() == 2 && move_of_letter(s[0]) is Some && is_digit(s[1]) {
        Some(Action(color_of_digit(s[1]), move_of_letter(s[0])->0))
    } else {
        None
    }
}

/// Reads a digit.
fn digit_of_char(c: char) -> (r: Option<u8>)
    ensures
        r == (if is_digit(c) {
            Some(digit_value(c) as u8)
        } else {
            None::<u8>
        }),
{
    if '0' <= c && c <= '9' {
        Some(((c as u32) - ('0' as u32)) as u8)
    } else {
        None
    }
}

/// Reads a distance letter.
fn distance_of_char(c: char) -> (r: Option<Distance>)
    ensures
        r == distance_of_letter(c),
{
    if c == 's' {
        Some(Distance::Same)
    } else if c == 'd' || c == 'n' {
        Some(Distance::Near)
    } else if c == 'f' {
        Some(Distance::Far)
    } else {
        None
    }
}

/// Reads a move letter.
fn move_of_char(c: char) -> (r: Option<Move>)
    ensures
        r == move_of_letter(c),
{
    if c == 'S' || c == 's' {
        Some(Move::Stay)
    } else if c == 'H' || c == 'h' {
        Some(Move::ToHalf)
    } else if c == 'O' || c == 'o' {
        Some(Move::ToOther)
    } else {
        None
    }
}

/// Reads a guard from the characters of its code.
fn guard_of_chars(model: ModelKind, class_l: bool, s: &Vec<char>) -> (r: Option<Guard>)
    ensures
        r == guard_of_code(model, class_l, s@),
{
    let expected: usize = match model {
        ModelKind::Full => if class_l { 2 } else { 3 },
        _ => if class_l { 1 } else { 2 },
    };
    if s.len() != expected {
        return None;
    }
    let c0 = match digit_of_char(s[0]) {
        Some(d) => Color(d),
        None => return None,
    };
    match model {
        ModelKind::Full => {
            let c1 = match digit_of_char(s[1]) {
                Some(d) => Color(d),
                None => return None,
            };
            if class_l {
                Some(Guard::LFull(c0, c1))
            } else {
                match distance_of_char(s[2]) {
                    Some(d) => Some(Guard::Full(c0, c1, d)),
                    None => None,
                }
            }
        },
        _ => {
            if class_l {
                if model == ModelKind::External {
                    Some(Guard::LExternal(c0))
                } else {
                    Some(Guard::LInternal(c0))
                }
            } else {
                match distance_of_char(s[1]) {
                    Some(d) => if model == ModelKind::External {
                        Some(Guard::External(c0, d))
                    } else {
                        Some(Guard::Internal(c0, d))
                    },
                    None => None,
                }
            }
        },
    }
}

/// Reads an action from the characters of its code.
fn action_of_chars(s: &Vec<char>) -> (r: Option<Action>)
    ensures
        r == action_of_code(s@),
{
    if s.len() != 2 {
        return None;
    }
    match (move_of_char(s[0]), digit_of_char(s[1])) {
        (Some(m), Some(d)) => Some(Action(Color(d), m)),
        _ => None,
    }
}

impl Guard {
    /// The short code of the guard.
    pub fn as_code(&self) -> (r: String)
        ensures
            r@ == guard_code(*self),
    {
        let mut s = String::new();
        match self {
            Guard::LExternal(c) | Guard::LInternal(c) => {
                push_decimal(&mut s, c.0);
            },
            Guard::LFull(a, b) => {
                push_decimal(&mut s, a.0);
                push_decimal(&mut s, b.0);
            },
            Guard::External(c, d) | Guard::Internal(c, d) => {
                push_decimal(&mut s, c.0);
                push_char(&mut s, if *d == Distance::Same { 's' } else { 'd' });
            },
            Guard::Full(a, b, d) => {
                push_decimal(&mut s, a.0);
                push_decimal(&mut s, b.0);
                push_char(&mut s, if *d == Distance::Same { 's' } else { 'd' });
            },
        }
        assert(s@ =~= guard_code(*self));
        s
    }

    /// Reads a guard of a model from its short code.
    pub fn try_parse(model: ModelKind, class_l: bool, code: &str) -> (r: Result<Guard, CodeError>)
        ensures
            r == (match guard_of_code(model, class_l, code@) {
                Some(g) => Ok::<Guard, CodeError>(g),
                None => Err(CodeError::BadCode),
            }),
    {
        let cs = chars_of(code);
        match guard_of_chars(model, class_l, &cs) {
            Some(g) => Ok(g),
            None => Err(CodeError::BadCode),
        }
    }
}

// ---------------------------------------------------------------------------
// Actions

impl Action {
    /// Whether the action keeps the robot in place.
    pub fn is_stationary(&self) -> (r: bool)
        ensures
            r == (self.1 == Move::Stay),
    {
        self.1 == Move::Stay
    }

    /// The next colour of the robot.
    pub fn color(&self) -> (r: Color)
        ensures
            r == self.0,
    {
        self.0
    }

    /// The movement of the robot.
    pub fn movement(&self) -> (r: Move)
        ensures
            r == self.1,
    {
        self.1
    }

    /// The short code of the action.
    pub fn as_code(&self) -> (r: String)
        ensures
            r@ == action_code(*self),
    {
        let mut s = String::new();
        let letter = match self.1 {
            Move::Stay => 'S',
            Move::ToHalf => 'H',
            Move::ToOther => 'O',
        };
        push_char(&mut s, letter);
        push_decimal(&mut s, (self.0).0);
        assert(s@ =~= action_code(*self));
        s
    }

    /// Reads an action from its short code.
    pub fn try_parse(code: &str) -> (r: Result<Action, CodeError>)
        ensures
            r == (match action_of_code(code@) {
                Some(a) => Ok::<Action, CodeError>(a),
                None => Err(CodeError::BadCode),
            }),
    {
        let cs = chars_of(code);
        match action_of_chars(&cs) {
            Some(a) => Ok(a),
            None => Err(CodeError::BadCode),
        }
    }
}

// ---------------------------------------------------------------------------
// Round trips of codes

/// A value below ten is written with one digit, which reads back as it.
pub proof fn lemma_single_digit(d: nat)
    requires
        d < 10,
    ensures
        decimal(d) == seq![digit_char(d)],
        is_digit(digit_char(d)),
        digit_value(digit_char(d)) == d,
{
}

/// Reading the code of an action gives the action back, when its colour is
/// below ten.
pub proof fn lemma_action_code_round_trip(a: Action)
    requires
        (a.0).0 < 10,
    ensures
        action_of_code(action_code(a)) == Some(a),
        no_underscore(action_code(a)),
        action_code(a).len() > 0,
{
    lemma_single_digit((a.0).0 as nat);
    let s = action_code(a);
    assert(s =~= seq![move_letter(a.1), digit_char((a.0).0 as nat)]);
}

/// Reading the code of a guard of a model's canonical list, in that model,
/// gives the guard back, when the model has at most ten colours.
pub proof fn lemma_guard_code_round_trip(model: ModelKind, n: nat, class_l: bool, g: Guard)
    requires
        n <= 10,
        canonical_guards(model, n, class_l).contains(g),
    ensures
        guard_of_code(model, class_l, guard_code(g)) == Some(g),
        no_underscore(guard_code(g)),
        guard_code(g).len() > 0,
{
    lemma_canonical_guards_shape(model, n, class_l);
    let i = choose|i: int|
        0 <= i < canonical_guards(model, n, class_l).len() && canonical_guards(model, n, class_l)[i] == g;
    assert(canonical_guards(model, n, class_l)[i] == g);
    match g {
        Guard::LExternal(c) | Guard::LInternal(c) => {
            lemma_single_digit(c.0 as nat);
        },
        Guard::LFull(a, b) => {
            lemma_single_digit(a.0 as nat);
            lemma_single_digit(b.0 as nat);
            assert(guard_code(g) =~= seq![digit_char(a.0 as nat), digit_char(b.0 as nat)]);
        },
        Guard::External(c, d) | Guard::Internal(c, d) => {
            lemma_single_digit(c.0 as nat);
            assert(guard_code(g) =~= seq![digit_char(c.0 as nat), distance_letter(d)]);
        },
        Guard::Full(a, b, d) => {
            lemma_single_digit(a.0 as nat);
            lemma_single_digit(b.0 as nat);
            assert(guard_code(g) =~= seq![digit_char(a.0 as nat), digit_char(b.0 as nat), distance_letter(d)]);
        },
    }
}

// ---------------------------------------------------------------------------
// Algorithms

/// The mathematical content of an algorithm.
pub struct AlgorithmModel {
    pub num_colors: u8,
    pub guards: Seq<Guard>,
    pub actions: Seq<Action>,
}

/// Whether a model is an algorithm: the canonical guard list of a model
/// with at least one colour, one action per guard, and every action's
/// colour below the number of colours.
pub open spec fn valid_algorithm(m: AlgorithmModel) -> bool {
    &&& m.num_colors >= 1
    &&& m.guards.len() >= 1
    &&& m.guards.len() == m.actions.len()
    &&& m.guards == canonical_guards(
        m.guards[0].spec_model_kind(),
        m.num_colors as nat,
        m.guards[0].spec_class_l(),
    )
    &&& forall|i: int| 0 <= i < m.actions.len() ==> (#[trigger] m.actions[i]).0.0 < m.num_colors
}

/// An algorithm for gathering two robots: one action for each guard of the
/// canonical guard list of its model.
#[derive(Debug, PartialEq, Eq, PartialOrd, Ord)]
pub struct Algorithm {
    num_colors: u8,
    guards: Vec<Guard>,
    actions: Vec<Action>,
}

impl View for Algorithm {
    type V = AlgorithmModel;

    closed spec fn view(&self) -> AlgorithmModel {
        AlgorithmModel { num_colors: self.num_colors, guards: self.guards@, actions: self.actions@ }
    }
}

/// Whether the guard of rule `i` is gathered.
pub open spec fn rule_gathered(m: AlgorithmModel, i: int) -> bool {
    m.guards[i].spec_is_gathered()
}

/// Every rule whose guard is gathered keeps the robot in place.
pub open spec fn spec_all_gathered_are_stay(m: AlgorithmModel) -> bool {
    forall|i: int| 0 <= i < m.guards.len() && rule_gathered(m, i) ==> (#[trigger] m.actions[i]).1 == Move::Stay
}

/// Some rule whose guard is not gathered has movement `mv`.
pub open spec fn spec_some_non_gathered_is(m: AlgorithmModel, mv: Move) -> bool {
    exists|i: int| 0 <= i < m.guards.len() && !rule_gathered(m, i) && (#[trigger] m.actions[i]).1 == mv
}

/// Colour `c` is written by some action, of a rule whose guard is not
/// gathered when `non_gathered_only`.
pub open spec fn color_written(m: AlgorithmModel, c: nat, non_gathered_only: bool) -> bool {
    exists|i: int| 0 <= i < m.guards.len() && (!non_gathered_only || !rule_gathered(m, i)) && (#[trigger] m.actions[i]).0 == Color(c as u8)
}

/// Every colour below the number of colours is written by some action.
pub open spec fn spec_all_colors_used_in_actions(m: AlgorithmModel) -> bool {
    forall|c: nat| c < m.num_colors ==> #[trigger] color_written(m, c, false)
}

/// Every colour below the number of colours is written by some action of a
/// rule whose guard is not gathered.
pub open spec fn spec_all_colors_used_in_non_gathered(m: AlgorithmModel) -> bool {
    forall|c: nat| c < m.num_colors ==> #[trigger] color_written(m, c, true)
}

/// Whether rule `i` takes part in the canonical-form check: its guard is not
/// gathered and sees equal colours.
pub open spec fn rule_checked_for_order(m: AlgorithmModel, i: int) -> bool {
    !m.guards[i].spec_is_gathered() && m.guards[i].spec_same_colors()
}

/// The movements of the rules among the first `k` whose guards are not
/// gathered and see equal colours, in rule order.
pub open spec fn ordered_moves(m: AlgorithmModel, k: int) -> Seq<Move>
    decreases k,
{
    if k <= 0 {
        Seq::empty()
    } else if rule_checked_for_order(m, k - 1) {
        ordered_moves(m, k - 1).push(m.actions[k - 1].1)
    } else {
        ordered_moves(m, k - 1)
    }
}

/// Whether a sequence of moves never goes down in the order
/// `Stay < ToHalf < ToOther`.
pub open spec fn non_decreasing(s: Seq<Move>) -> bool {
    forall|i: int, j: int| 0 <= i < j < s.len() ==> move_rank(#[trigger] s[i]) <= move_rank(#[trigger] s[j])
}

/// The movements of the non-gathered, same-colour rules are in increasing
/// order.
pub open spec fn spec_is_pseudo_canonical(m: AlgorithmModel) -> bool {
    non_decreasing(ordered_moves(m, m.guards.len() as int))
}

/// For every guard seeing both colours: the robot changes its colour exactly
/// when the two colours are equal.
pub open spec fn spec_retains_color_iff_other_different(m: AlgorithmModel) -> bool {
    forall|i: int| 0 <= i < m.guards.len() ==> match #[trigger] m.guards[i] {
        Guard::LFull(my, _) | Guard::Full(my, _, _) => (m.guards[i].spec_same_colors() <==> m.actions[i].0 != my),
        _ => true,
    }
}

impl Clone for Algorithm {
    fn clone(&self) -> (r: Algorithm)
        ensures
            r@ == self@,
    {
        proof { use_type_invariant(self); }
        Algorithm::new(self.num_colors, self.guards.as_slice(), self.actions.as_slice())
    }
}

impl Algorithm {
    #[verifier::type_invariant]
    spec fn inv(&self) -> bool {
        valid_algorithm(self@)
    }

    /// Makes an algorithm of the given guards and actions.
    pub fn new(num_colors: u8, guards: &[Guard], actions: &[Action]) -> (r: Algorithm)
        requires
            valid_algorithm(AlgorithmModel { num_colors, guards: guards@, actions: actions@ }),
        ensures
            r@ == (AlgorithmModel { num_colors, guards: guards@, actions: actions@ }),
    {
        let mut gs: Vec<Guard> = Vec::new();
        let mut i: usize = 0;
        while i < guards.len()
            invariant
                i <= guards.len(),
                gs@ == guards@.take(i as int),
            decreases guards.len() - i,
        {
            gs.push(guards[i]);
            i = i + 1;
            assert(gs@ =~= guards@.take(i as int));
        }
        let mut acts: Vec<Action> = Vec::new();
        let mut j: usize = 0;
        while j < actions.len()
            invariant
                j <= actions.len(),
                acts@ == actions@.take(j as int),
            decreases actions.len() - j,
        {
            acts.push(actions[j]);
            j = j + 1;
            assert(acts@ =~= actions@.take(j as int));
        }
        assert(gs@ =~= guards@);
        assert(acts@ =~= actions@);
        Algorithm { num_colors, guards: gs, actions: acts }
    }

    /// Makes an algorithm, taking the guards and actions over.
    pub(crate) fn from_parts(num_colors: u8, guards: Vec<Guard>, actions: Vec<Action>) -> (r: Algorithm)
        requires
            valid_algorithm(AlgorithmModel { num_colors, guards: guards@, actions: actions@ }),
        ensures
            r@ == (AlgorithmModel { num_colors, guards: guards@, actions: actions@ }),
    {
        Algorithm { num_colors, guards, actions }
    }

    /// The number of colours.
    pub fn num_colors(&self) -> (r: u8)
        ensures
            r == self@.num_colors,
    {
        self.num_colors
    }

    /// The kind of model of the algorithm, that of its guards.
    pub fn model_kind(&self) -> (r: ModelKind)
        ensures
            r == self@.guards[0].spec_model_kind(),
    {
        proof { use_type_invariant(self); }
        self.guards[0].model_kind()
    }

    /// Whether the algorithm is of class L, as its guards are.
    #[allow(non_snake_case)]
    pub fn class_L(&self) -> (r: bool)
        ensures
            r == self@.guards[0].spec_class_l(),
    {
        proof { use_type_invariant(self); }
        self.guards[0].class_L()
    }

    /// The rules, in guard order.
    pub fn rules(&self) -> (r: Vec<Rule>)
        ensures
            r@.len() == self@.guards.len(),
            forall|i: int| 0 <= i < r@.len() ==> #[trigger] r@[i] == Rule(self@.guards[i], self@.actions[i]),
    {
        proof { use_type_invariant(self); }
        let mut r: Vec<Rule> = Vec::new();
        let mut i: usize = 0;
        while i < self.guards.len()
            invariant
                i <= self.guards.len(),
                self.guards.len() == self.actions.len(),
                r@.len() == i,
                forall|k: int| 0 <= k < i ==> #[trigger] r@[k] == Rule(self@.guards[k], self@.actions[k]),
            decreases self.guards.len() - i,
        {
            r.push(Rule(self.guards[i], self.actions[i]));
            i = i + 1;
        }
        r
    }

    /// Every gathered rule keeps the robot in place (when gathered, every
    /// move amounts to staying).
    pub fn all_gathered_are_stay(&self) -> (r: bool)
        ensures
            r == spec_all_gathered_are_stay(self@),
    {
        proof { use_type_invariant(self); }
        let mut i: usize = 0;
        while i < self.guards.len()
            invariant
                i <= self.guards.len(),
                self.guards.len() == self.actions.len(),
                forall|k: int| 0 <= k < i && rule_gathered(self@, k) ==> (#[trigger] self@.actions[k]).1 == Move::Stay,
            decreases self.guards.len() - i,
        {
            if self.guards[i].is_gathered() && self.actions[i].1 != Move::Stay {
                assert(rule_gathered(self@, i as int) && self@.actions[i as int].1 != Move::Stay);
                return false;
            }
            i = i + 1;
        }
        true
    }

    /// Whether some non-gathered rule has movement `mv`.
    fn some_non_gathered_has(&self, mv: Move) -> (r: bool)
        ensures
            r == spec_some_non_gathered_is(self@, mv),
    {
        proof { use_type_invariant(self); }
        let mut i: usize = 0;
        while i < self.guards.len()
            invariant
                i <= self.guards.len(),
                self.guards.len() == self.actions.len(),
                forall|k: int| 0 <= k < i && !rule_gathered(self@, k) ==> (#[trigger] self@.actions[k]).1 != mv,
            decreases self.guards.len() - i,
        {
            if !self.guards[i].is_gathered() && self.actions[i].1 == mv {
                assert(!rule_gathered(self@, i as int) && self@.actions[i as int].1 == mv);
                return true;
            }
            i = i + 1;
        }
        false
    }

    /// Some non-gathered rule keeps the robot in place (without one, no
    /// gathering under a centralized scheduler).
    pub fn some_non_gathered_is_stay(&self) -> (r: bool)
        ensures
            r == spec_some_non_gathered_is(self@, Move::Stay),
    {
        self.some_non_gathered_has(Move::Stay)
    }

    /// Some non-gathered rule moves to the other robot (without one, no
    /// gathering under a centralized scheduler).
    pub fn some_non_gathered_is_to_other(&self) -> (r: bool)
        ensures
            r == spec_some_non_gathered_is(self@, Move::ToOther),
    {
        self.some_non_gathered_has(Move::ToOther)
    }

    /// Some non-gathered rule moves half way (without one, no gathering under
    /// a fully synchronous scheduler).
    pub fn some_non_gathered_is_to_half(&self) -> (r: bool)
        ensures
            r == spec_some_non_gathered_is(self@, Move::ToHalf),
    {
        self.some_non_gathered_has(Move::ToHalf)
    }

    /// Whether colour `c` is written by some action, among non-gathered
    /// rules only when `non_gathered_only`.
    fn color_is_used(&self, c: u8, non_gathered_only: bool) -> (r: bool)
        ensures
            r == color_written(self@, c as nat, non_gathered_only),
    {
        proof { use_type_invariant(self); }
        let mut i: usize = 0;
        while i < self.actions.len()
            invariant
                i <= self.actions.len(),
                self.guards.len() == self.actions.len(),
                forall|k: int| 0 <= k < i && (!non_gathered_only || !rule_gathered(self@, k)) ==> (#[trigger] self@.actions[k]).0 != Color(c),
            decreases self.actions.len() - i,
        {
            if (!non_gathered_only || !self.guards[i].is_gathered()) && self.actions[i].0 == Color(c) {
                assert(self@.actions[i as int].0 == Color(c));
                return true;
            }
            i = i + 1;
        }
        false
    }

    /// Whether every colour is used, among non-gathered rules only when
    /// `non_gathered_only`.
    fn all_colors_used(&self, non_gathered_only: bool) -> (r: bool)
        ensures
            r == forall|c: nat| c < self@.num_colors ==> #[trigger] color_written(self@, c, non_gathered_only),
    {
        let mut c: u8 = 0;
        while c < self.num_colors
            invariant
                c <= self@.num_colors,
                forall|d: nat| d < c ==> #[trigger] color_written(self@, d, non_gathered_only),
            decreases self.num_colors - c,
        {
            if !self.color_is_used(c, non_gathered_only) {
                assert(!color_written(self@, c as nat, non_gathered_only));
                return false;
            }
            c = c + 1;
        }
        true
    }

    /// Every colour is written by some non-gathered action (else gathering
    /// would be solved with fewer colours).
    pub fn all_colors_used_in_non_gathered(&self) -> (r: bool)
        ensures
            r == spec_all_colors_used_in_non_gathered(self@),
    {
        self.all_colors_used(true)
    }

    /// Every colour is written by some action (else gathering would be solved
    /// with fewer colours).
    pub fn all_colors_used_in_actions(&self) -> (r: bool)
        ensures
            r == spec_all_colors_used_in_actions(self@),
    {
        proof { use_type_invariant(self); }
        self.all_colors_used(false)
    }

    /// A one-sided check of canonical form under colour permutations: the
    /// movements of the non-gathered rules that see equal colours must not
    /// decrease. Every canonical algorithm passes; some others pass too.
    pub fn is_pseudo_canonical(&self) -> (r: bool)
        ensures
            r == spec_is_pseudo_canonical(self@),
    {
        proof { use_type_invariant(self); }
        let mut res = true;
        let mut top: u8 = 0;
        let mut i: usize = 0;
        while i < self.guards.len()
            invariant
                i <= self.guards.len(),
                self.guards.len() == self.actions.len(),
                res == non_decreasing(ordered_moves(self@, i as int)),
                forall|k: int| 0 <= k < ordered_moves(self@, i as int).len() ==> move_rank(#[trigger] ordered_moves(self@, i as int)[k]) <= top,
                top == 0 || exists|k: int| 0 <= k < ordered_moves(self@, i as int).len() && move_rank(#[trigger] ordered_moves(self@, i as int)[k]) == top,
            decreases self.guards.len() - i,
        {
            let g = self.guards[i];
            let ghost prev = ordered_moves(self@, i as int);
            if !g.is_gathered() && g.same_colors() {
                let mv = self.actions[i].1.rank();
                let ghost next = ordered_moves(self@, i + 1);
                assert(next == prev.push(self@.actions[i as int].1));
                assert(next[prev.len() as int] == self@.actions[i as int].1);
                assert(non_decreasing(next) == (non_decreasing(prev) && top <= mv)) by {
                    if non_decreasing(prev) && top <= mv {
                        assert forall|a: int, b: int| 0 <= a < b < next.len() implies move_rank(#[trigger] next[a]) <= move_rank(#[trigger] next[b]) by {
                            if b < prev.len() {
                                assert(next[a] == prev[a] && next[b] == prev[b]);
                            } else {
                                assert(next[a] == prev[a]);
                            }
                        }
                    }
                    if non_decreasing(next) && top > mv {
                        let k = choose|k: int| 0 <= k < prev.len() && move_rank(#[trigger] prev[k]) == top;
                        assert(next[k] == prev[k]);
                        assert(move_rank(next[k]) <= move_rank(next[prev.len() as int]));
                    }
                    if non_decreasing(next) {
                        assert forall|a: int, b: int| 0 <= a < b < prev.len() implies move_rank(#[trigger] prev[a]) <= move_rank(#[trigger] prev[b]) by {
                            assert(next[a] == prev[a] && next[b] == prev[b]);
                        }
                    }
                }
                res = res && top <= mv;
                if mv > top {
                    top = mv;
                    assert(next[prev.len() as int] == self@.actions[i as int].1);
                }
                proof {
                    assert forall|k: int| 0 <= k < next.len() implies move_rank(#[trigger] next[k]) <= top by {
                        if k < prev.len() {
                            assert(next[k] == prev[k]);
                        }
                    }
                    if top != 0 && top != mv {
                        let k = choose|k: int| 0 <= k < prev.len() && move_rank(#[trigger] prev[k]) == top;
                        assert(next[k] == prev[k]);
                    }
                    if top != 0 && top == mv {
                        assert(move_rank(next[prev.len() as int]) == top);
                    }
                }
            } else {
                assert(ordered_moves(self@, i + 1) == prev);
            }
            i = i + 1;
        }
        res
    }

    /// Whether, for every guard seeing both colours, the robot changes its
    /// colour exactly when it sees the other robot with the same colour
    /// ("a robot retains its colour if and only if it sees the other robot
    /// set to a different colour").
    pub fn retains_color_iif_other_color_different(&self) -> (r: bool)
        ensures
            r == spec_retains_color_iff_other_different(self@),
    {
        proof { use_type_invariant(self); }
        let mut i: usize = 0;
        while i < self.guards.len()
            invariant
                i <= self.guards.len(),
                self.guards.len() == self.actions.len(),
                forall|k: int| 0 <= k < i ==> match #[trigger] self@.guards[k] {
                    Guard::LFull(my, _) | Guard::Full(my, _, _) => (self@.guards[k].spec_same_colors() <==> self@.actions[k].0 != my),
                    _ => true,
                },
            decreases self.guards.len() - i,
        {
            let g = self.guards[i];
            let a = self.actions[i];
            let ok = match g {
                Guard::LFull(my, _) | Guard::Full(my, _, _) => g.same_colors() == (a.0 != my),
                _ => true,
            };
            if !ok {
                assert(!match self@.guards[i as int] {
                    Guard::LFull(my, _) | Guard::Full(my, _, _) => (self@.guards[i as int].spec_same_colors() <==> self@.actions[i as int].0 != my),
                    _ => true,
                });
                return false;
            }
            i = i + 1;
        }
        true
    }
}

// ---------------------------------------------------------------------------
// The code of an algorithm

/// The tokens of an algorithm's code: the guard codes, an empty token, then
/// the action codes.
pub open spec fn code_tokens(m: AlgorithmModel) -> Seq<Seq<char>> {
    guard_codes(m.guards) + seq![Seq::<char>::empty()] + action_codes(m.actions)
}

/// The codes of guards.
pub open spec fn guard_codes(gs: Seq<Guard>) -> Seq<Seq<char>> {
    gs.map_values(|g: Guard| guard_code(g))
}

/// The codes of actions.
pub open spec fn action_codes(acts: Seq<Action>) -> Seq<Seq<char>> {
    acts.map_values(|a: Action| action_code(a))
}

/// The guards that tokens stand for in a model.
pub open spec fn guards_of_tokens(model: ModelKind, class_l: bool, ts: Seq<Seq<char>>) -> Seq<Guard> {
    ts.map_values(|t: Seq<char>| guard_of_code(model, class_l, t)->0)
}

/// The actions that tokens stand for.
pub open spec fn actions_of_tokens(ts: Seq<Seq<char>>) -> Seq<Action> {
    ts.map_values(|t: Seq<char>| action_of_code(t)->0)
}

/// The code of an algorithm: `G1_G2_..._Gn__A1_A2_..._An`.
pub open spec fn algorithm_code(m: AlgorithmModel) -> Seq<char> {
    joined(code_tokens(m), seq!['_'])
}

/// Whether token `k` is the first empty token.
pub open spec fn is_separator_at(ts: Seq<Seq<char>>, k: int) -> bool {
    &&& 0 <= k < ts.len()
    &&& ts[k].len() == 0
    &&& forall|j: int| 0 <= j < k ==> (#[trigger] ts[j]).len() > 0
}

/// The algorithm that a code stands for in a model, or why there is none.
///
/// The code is split on underscores; the first empty token separates the
/// guards from the actions. A missing separator, a missing half, or a token
/// that does not read as a guard of the model or as an action is `BadCode`.
/// Guards that are not the model's canonical list, a number of actions other
/// than the number of guards, or an action colour not below `n` is
/// `ModelMismatch`.
pub open spec fn parse_algorithm(model: ModelKind, n: u8, class_l: bool, s: Seq<char>) -> Result<AlgorithmModel, CodeError> {
    let ts = split_underscore(s);
    if !(exists|k: int| is_separator_at(ts, k)) {
        Err(CodeError::BadCode)
    } else {
        let k = choose|k: int| is_separator_at(ts, k);
        let gts = ts.take(k);
        let ats = ts.skip(k + 1);
        if k == 0 || ats.len() == 0
            || !(forall|i: int| 0 <= i < gts.len() ==> guard_of_code(model, class_l, #[trigger] gts[i]) is Some)
            || !(forall|i: int| 0 <= i < ats.len() ==> action_of_code(#[trigger] ats[i]) is Some) {
            Err(CodeError::BadCode)
        } else {
            let m = AlgorithmModel {
                num_colors: n,
                guards: guards_of_tokens(model, class_l, gts),
                actions: actions_of_tokens(ats),
            };
            if fits_model(m, model, class_l) {
                Ok(m)
            } else {
                Err(CodeError::ModelMismatch)
            }
        }
    }
}

/// Whether parsed guards and actions fit a model: the guards are its
/// canonical list, with one action each, of colours below the number of
/// colours.
pub open spec fn fits_model(m: AlgorithmModel, model: ModelKind, class_l: bool) -> bool {
    &&& m.guards == canonical_guards(model, m.num_colors as nat, class_l)
    &&& m.actions.len() == m.guards.len()
    &&& forall|i: int| 0 <= i < m.actions.len() ==> (#[trigger] m.actions[i]).0.0 < m.num_colors
}

/// The first empty token is unique.
proof fn lemma_separator_unique(ts: Seq<Seq<char>>, k: int)
    requires
        is_separator_at(ts, k),
    ensures
        (choose|j: int| is_separator_at(ts, j)) == k,
{
    let j = choose|j: int| is_separator_at(ts, j);
    assert(is_separator_at(ts, j));
    if j < k {
        assert(ts[j].len() > 0);
    }
    if k < j {
        assert(ts[k].len() > 0);
    }
}

/// Reading the code of an algorithm with at most ten colours, in its model,
/// gives the algorithm back.
pub proof fn lemma_parse_as_code(m: AlgorithmModel)
    requires
        valid_algorithm(m),
        m.num_colors <= 10,
    ensures
        parse_algorithm(m.guards[0].spec_model_kind(), m.num_colors, m.guards[0].spec_class_l(), algorithm_code(m))
            == Ok::<AlgorithmModel, CodeError>(m),
{
    let model = m.guards[0].spec_model_kind();
    let class_l = m.guards[0].spec_class_l();
    let n = m.num_colors;
    let ng = m.guards.len() as int;
    let ts = code_tokens(m);
    let gcodes = guard_codes(m.guards);
    let acodes = action_codes(m.actions);
    assert forall|i: int| 0 <= i < ng implies guard_of_code(model, class_l, #[trigger] gcodes[i]) == Some(m.guards[i])
        && no_underscore(gcodes[i]) && gcodes[i].len() > 0 by {
        assert(canonical_guards(model, n as nat, class_l)[i] == m.guards[i]);
        lemma_guard_code_round_trip(model, n as nat, class_l, m.guards[i]);
    }
    assert forall|i: int| 0 <= i < ng implies action_of_code(#[trigger] acodes[i]) == Some(m.actions[i])
        && no_underscore(acodes[i]) && acodes[i].len() > 0 by {
        lemma_action_code_round_trip(m.actions[i]);
    }
    assert forall|i: int| 0 <= i < ts.len() implies no_underscore(#[trigger] ts[i]) by {
        if i < ng {
            assert(ts[i] == gcodes[i]);
        } else if i == ng {
            assert(ts[i] == Seq::<char>::empty());
        } else {
            assert(ts[i] == acodes[i - ng - 1]);
        }
    }
    lemma_split_joined(ts);
    assert(split_underscore(algorithm_code(m)) == ts);
    assert(is_separator_at(ts, ng)) by {
        assert(ts[ng] == Seq::<char>::empty());
        assert forall|j: int| 0 <= j < ng implies (#[trigger] ts[j]).len() > 0 by {
            assert(ts[j] == gcodes[j]);
        }
    }
    lemma_separator_unique(ts, ng);
    let gts = ts.take(ng);
    let ats = ts.skip(ng + 1);
    assert(gts =~= gcodes);
    assert(ats =~= acodes);
    assert(guards_of_tokens(model, class_l, gts) =~= m.guards);
    assert(actions_of_tokens(ats) =~= m.actions);
}

/// Whether an algorithm passes the canonical-form check depends only on the
/// movements of its non-gathered, same-colour rules, in rule order.
pub proof fn lemma_pseudo_canonical_depends_on_ordered_moves(a: AlgorithmModel, b: AlgorithmModel)
    requires
        ordered_moves(a, a.guards.len() as int) == ordered_moves(b, b.guards.len() as int),
    ensures
        spec_is_pseudo_canonical(a) == spec_is_pseudo_canonical(b),
{
}

impl Algorithm {
    /// The code of the algorithm: `G1_G2_..._Gn__A1_A2_..._An`.
    pub fn as_code(&self) -> (r: String)
        ensures
            r@ == algorithm_code(self@),
    {
        proof { use_type_invariant(self); }
        let ghost m = self@;
        let mut parts: Vec<String> = Vec::new();
        let mut i: usize = 0;
        while i < self.guards.len()
            invariant
                m == self@,
                i <= self.guards.len(),
                string_views(parts@) == guard_codes(m.guards.take(i as int)),
            decreases self.guards.len() - i,
        {
            let c = self.guards[i].as_code();
            let ghost prev = parts@;
            parts.push(c);
            assert(string_views(parts@) =~= string_views(prev).push(c@));
            assert(guard_codes(m.guards.take(i + 1)) =~= guard_codes(m.guards.take(i as int)).push(guard_code(m.guards[i as int])));
            i = i + 1;
            assert(string_views(parts@) =~= guard_codes(m.guards.take(i as int)));
        }
        assert(m.guards.take(i as int) =~= m.guards);
        let ghost head = string_views(parts@);
        parts.push(String::new());
        assert(string_views(parts@) =~= head + seq![Seq::<char>::empty()]);
        let ghost head2 = string_views(parts@);
        let mut j: usize = 0;
        while j < self.actions.len()
            invariant
                m == self@,
                j <= self.actions.len(),
                string_views(parts@) == head2 + action_codes(m.actions.take(j as int)),
            decreases self.actions.len() - j,
        {
            let c = self.actions[j].as_code();
            let ghost prev = parts@;
            parts.push(c);
            assert(string_views(parts@) =~= string_views(prev).push(c@));
            assert(action_codes(m.actions.take(j + 1)) =~= action_codes(m.actions.take(j as int)).push(action_code(m.actions[j as int])));
            j = j + 1;
            assert(string_views(parts@) =~= head2 + action_codes(m.actions.take(j as int)));
        }
        assert(m.actions.take(j as int) =~= m.actions);
        assert(string_views(parts@) =~= code_tokens(m));
        proof { reveal_strlit("_"); }
        assert("_"@ =~= seq!['_']);
        join_parts(parts, "_")
    }

    /// Reads an algorithm of a model from its code.
    pub fn try_parse(model: ModelKind, num_colors: u8, class_l: bool, code: &str) -> (r: Result<Algorithm, CodeError>)
        ensures
            match r {
                Ok(a) => parse_algorithm(model, num_colors, class_l, code@) == Ok::<AlgorithmModel, CodeError>(a@),
                Err(e) => parse_algorithm(model, num_colors, class_l, code@) == Err::<AlgorithmModel, CodeError>(e),
            },
    {
        let cs = chars_of(code);
        let ts = split_on_underscores(&cs);
        let ghost tv = char_seqs(ts@);
        assert(tv == split_underscore(code@));
        let mut k: usize = 0;
        while k < ts.len() && ts[k].len() > 0
            invariant
                k <= ts.len(),
                tv == char_seqs(ts@),
                forall|j: int| 0 <= j < k ==> (#[trigger] tv[j]).len() > 0,
            decreases ts.len() - k,
        {
            k = k + 1;
        }
        if k == ts.len() {
            assert(!(exists|j: int| is_separator_at(tv, j))) by {
                if exists|j: int| is_separator_at(tv, j) {
                    let j = choose|j: int| is_separator_at(tv, j);
                    assert(tv[j].len() > 0);
                }
            }
            return Err(CodeError::BadCode);
        }
        assert(is_separator_at(tv, k as int));
        proof { lemma_separator_unique(tv, k as int); }
        let ghost gts = tv.take(k as int);
        let ghost ats = tv.skip(k + 1);
        if k == 0 || k + 1 >= ts.len() {
            return Err(CodeError::BadCode);
        }
        let mut guards: Vec<Guard> = Vec::new();
        let mut i: usize = 0;
        while i < k
            invariant
                0 < i + 1,
                0 < k,
                i <= k < ts.len(),
                k + 1 < ts.len(),
                tv == char_seqs(ts@),
                tv == split_underscore(code@),
                is_separator_at(tv, k as int),
                (choose|j: int| is_separator_at(tv, j)) == k,
                gts == tv.take(k as int),
                forall|j: int| 0 <= j < i ==> guard_of_code(model, class_l, #[trigger] gts[j]) is Some,
                guards@ == guards_of_tokens(model, class_l, gts.take(i as int)),
            decreases k - i,
        {
            match guard_of_chars(model, class_l, &ts[i]) {
                Some(g) => {
                    guards.push(g);
                },
                None => {
                    assert(guard_of_code(model, class_l, gts[i as int]) is None);
                    return Err(CodeError::BadCode);
                },
            }
            i = i + 1;
            assert(guards@ =~= guards_of_tokens(model, class_l, gts.take(i as int)));
        }
        assert(gts.take(k as int) =~= gts);
        let mut actions: Vec<Action> = Vec::new();
        let mut i: usize = k + 1;
        while i < ts.len()
            invariant
                0 < k,
                k + 1 <= i <= ts.len(),
                k + 1 < ts.len(),
                tv == char_seqs(ts@),
                tv == split_underscore(code@),
                is_separator_at(tv, k as int),
                (choose|j: int| is_separator_at(tv, j)) == k,
                gts == tv.take(k as int),
                forall|j: int| 0 <= j < gts.len() ==> guard_of_code(model, class_l, #[trigger] gts[j]) is Some,
                guards@ == guards_of_tokens(model, class_l, gts),
                ats == tv.skip(k + 1),
                forall|j: int| 0 <= j < i - k - 1 ==> action_of_code(#[trigger] ats[j]) is Some,
                actions@ == actions_of_tokens(ats.take(i - k - 1)),
            decreases ts.len() - i,
        {
            match action_of_chars(&ts[i]) {
                Some(a) => {
                    actions.push(a);
                },
                None => {
                    assert(action_of_code(ats[i - k - 1]) is None);
                    return Err(CodeError::BadCode);
                },
            }
            i = i + 1;
            assert(actions@ =~= actions_of_tokens(ats.take(i - k - 1)));
        }
        assert(ats.take(ats.len() as int) =~= ats);
        let ghost m = AlgorithmModel { num_colors, guards: guards@, actions: actions@ };
        assert(parse_algorithm(model, num_colors, class_l, code@) == if fits_model(m, model, class_l) {
            Ok::<AlgorithmModel, CodeError>(m)
        } else {
            Err(CodeError::ModelMismatch)
        });
        let canon = Guard::all_for_model(model, num_colors, class_l);
        if guards.len() != canon.len() || actions.len() != guards.len() {
            return Err(CodeError::ModelMismatch);
        }
        let mut i: usize = 0;
        while i < guards.len()
            invariant
                m == (AlgorithmModel { num_colors, guards: guards@, actions: actions@ }),
                canon@ == canonical_guards(model, num_colors as nat, class_l),
                parse_algorithm(model, num_colors, class_l, code@) == if fits_model(m, model, class_l) {
                    Ok::<AlgorithmModel, CodeError>(m)
                } else {
                    Err(CodeError::ModelMismatch)
                },
                i <= guards.len() == canon.len(),
                forall|j: int| 0 <= j < i ==> guards@[j] == canon@[j],
            decreases guards.len() - i,
        {
            if guards[i] != canon[i] {
                return Err(CodeError::ModelMismatch);
            }
            i = i + 1;
        }
        assert(guards@ =~= canon@);
        let mut i: usize = 0;
        while i < actions.len()
            invariant
                m == (AlgorithmModel { num_colors, guards: guards@, actions: actions@ }),
                guards@ == canonical_guards(model, num_colors as nat, class_l),
                actions.len() == guards.len(),
                guards.len() >= 1,
                parse_algorithm(model, num_colors, class_l, code@) == if fits_model(m, model, class_l) {
                    Ok::<AlgorithmModel, CodeError>(m)
                } else {
                    Err(CodeError::ModelMismatch)
                },
                i <= actions.len(),
                forall|j: int| 0 <= j < i ==> (#[trigger] actions@[j]).0.0 < num_colors,
            decreases actions.len() - i,
        {
            if (actions[i].0).0 >= num_colors {
                assert(!(forall|j: int| 0 <= j < actions@.len() ==> (#[trigger] actions@[j]).0.0 < num_colors));
                return Err(CodeError::ModelMismatch);
            }
            i = i + 1;
        }
        proof {
            lemma_canonical_guards_shape(model, num_colors as nat, class_l);
            assert(guards@[0] == canonical_guards(model, num_colors as nat, class_l)[0]);
            if num_colors == 0 {
                assert(guard_count(model, 0, class_l) == 0);
            }
        }
        Ok(Algorithm::from_parts(num_colors, guards, actions))
    }
}

} // verus!
