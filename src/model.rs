//! A model configuration: kind, number of colours and class-L restriction,
//! and its short name such as `F3L`.
use vstd::prelude::*;

use crate::common::{
    decimal_value, is_decimal, lemma_decimal_value_monotone, model_kind_of_letter, CodeError, ModelKind,
};
use crate::text::chars_of;

verus! {

/// A model: kind of observations, number of colours, class-L restriction.
#[allow(non_snake_case)]
#[derive(Debug, Clone, Copy, PartialEq, Eq, Structural, Hash)]
pub struct Model {
    pub category: ModelKind,
    pub n_colors: u8,
    pub class_L: bool,
}

/// The model that a short name stands for: a kind letter (`F`, `E` or `I`),
/// the number of colours in decimal (at most 255), and an optional `L` for
/// class L.
pub open spec fn model_of_name(s: Seq<char>) -> Result<Model, CodeError> {
    if s.len() < 2 || model_kind_of_letter(s[0]) is None {
        Err(CodeError::BadCode)
    } else {
        let rest = s.skip(1);
        let class_l = rest.last() == 'L';
        let digits = if class_l {
            rest.drop_last()
        } else {
            rest
        };
        if is_decimal(digits) && decimal_value(digits) <= 255 {
            Ok(
                Model {
                    category: model_kind_of_letter(s[0])->0,
                    n_colors: decimal_value(digits) as u8,
                    class_L: class_l,
                },
            )
        } else {
            Err(CodeError::BadCode)
        }
    }
}

/// The value of the decimal digits `s[from..to]`, or `None` when they are
/// not all digits, none at all, or above 255.
fn small_decimal(s: &Vec<char>, from: usize, to: usize) -> (r: Option<u8>)
    requires
        from <= to <= s.len(),
    ensures
        r == (if is_decimal(s@.subrange(from as int, to as int)) && decimal_value(
            s@.subrange(from as int, to as int),
        ) <= 255 {
            Some(decimal_value(s@.subrange(from as int, to as int)) as u8)
        } else {
            None::<u8>
        }),
{
    let ghost d = s@.subrange(from as int, to as int);
    if from == to {
        return None;
    }
    let mut v: u32 = 0;
    let mut i: usize = from;
    while i < to
        invariant
            from <= i <= to <= s.len(),
            d == s@.subrange(from as int, to as int),
            v <= 255,
            forall|j: int| 0 <= j < i - from ==> crate::common::is_digit(#[trigger] d[j]),
            v == decimal_value(d.take(i - from)),
        decreases to - i,
    {
        let c = s[i];
        assert(d[i - from] == c);
        assert(d.take(i - from + 1).drop_last() =~= d.take(i - from));
        if !('0' <= c && c <= '9') {
            return None;
        }
        let x = (c as u32) - ('0' as u32);
        if v * 10 + x > 255 {
            proof {
                lemma_decimal_value_monotone(d, i - from + 1);
            }
            return None;
        }
        v = v * 10 + x;
        i = i + 1;
    }
    assert(d.take(to - from) =~= d);
    Some(v as u8)
}

impl Model {
    /// Reads a model from its short name, such as `F3` or `E4L`.
    pub fn try_parse(name: &str) -> (r: Result<Model, CodeError>)
        ensures
            r == model_of_name(name@),
    {
        let s = chars_of(name);
        if s.len() < 2 {
            return Err(CodeError::BadCode);
        }
        let category = match crate::common::ModelKind::from_letter(s[0]) {
            Ok(k) => k,
            Err(e) => {
                return Err(e);
            },
        };
        let class_l = s[s.len() - 1] == 'L';
        let end = if class_l {
            s.len() - 1
        } else {
            s.len()
        };
        proof {
            let rest = s@.skip(1);
            assert(rest.last() == s@[s.len() - 1]);
            if class_l {
                assert(rest.drop_last() =~= s@.subrange(1, end as int));
            } else {
                assert(rest =~= s@.subrange(1, end as int));
            }
        }
        match small_decimal(&s, 1, end) {
            Some(n) => Ok(Model { category, n_colors: n, class_L: class_l }),
            None => Err(CodeError::BadCode),
        }
    }
}

impl From<(ModelKind, u8, bool)> for Model {
    #[allow(non_snake_case)]
    fn from(v: (ModelKind, u8, bool)) -> (r: Model) {
        Model { category: v.0, n_colors: v.1, class_L: v.2 }
    }
}

impl vstd::std_specs::convert::FromSpecImpl<(ModelKind, u8, bool)> for Model {
    open spec fn obeys_from_spec() -> bool {
        true
    }

    open spec fn from_spec(v: (ModelKind, u8, bool)) -> Model {
        Model { category: v.0, n_colors: v.1, class_L: v.2 }
    }
}

impl<'a> TryFrom<&'a str> for Model {
    type Error = CodeError;

    fn try_from(value: &'a str) -> (r: Result<Model, CodeError>) {
        Model::try_parse(value)
    }
}

impl<'a> vstd::std_specs::convert::TryFromSpecImpl<&'a str> for Model {
    open spec fn obeys_try_from_spec() -> bool {
        true
    }

    open spec fn try_from_spec(v: &'a str) -> Result<Model, CodeError> {
        model_of_name(v@)
    }
}

} // verus!
