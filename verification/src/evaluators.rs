//! The evaluation function the library ships out of the box: integer
//! addition over word operands, proved against its own relation. Embedding
//! applications register their own [`Evaluator`] implementations alongside
//! it.

use crate::literal::{lit_views, spec_lit_text, LitView, Literal};
use crate::numtext::{
    chars_to_string, format_i32, parse_i32_chars, spec_i32_text, spec_parse_i32, string_to_chars,
};
use crate::optable::Evaluator;
use vstd::prelude::*;

verus! {

/// What integer addition yields on an argument list: defined exactly when
/// there are two arguments whose texts parse as signed 32-bit integers and
/// whose sum fits; the result is the word holding the sum's decimal text.
pub open spec fn spec_int_add(args: Seq<LitView>) -> Option<LitView> {
    if args.len() == 2 {
        match (spec_parse_i32(spec_lit_text(args[0])), spec_parse_i32(spec_lit_text(args[1]))) {
            (Some(a), Some(b)) => if i32::MIN <= a + b <= i32::MAX {
                Some(LitView::Word(spec_i32_text((a + b) as i32)))
            } else {
                None
            },
            _ => None,
        }
    } else {
        None
    }
}

/// Binary integer addition over word operands.
pub struct IntAddEvaluator;

impl Evaluator for IntAddEvaluator {
    /// Succeeds with the sum's word exactly where [`spec_int_add`] is
    /// defined; anything else is a failure.
    open spec fn post(&self, args: Seq<LitView>, r: Result<LitView, Seq<char>>) -> bool {
        match spec_int_add(args) {
            Some(v) => r == Ok::<LitView, Seq<char>>(v),
            None => r is Err,
        }
    }

    fn call(&self, args: &Vec<Literal>) -> (r: Result<Literal, String>) {
        if args.len() != 2 {
            let mut msg = String::new();
            msg.append("integer addition expects two operands");
            return Err(msg);
        }
        let s0 = args[0].as_string();
        let c0 = string_to_chars(s0.as_str());
        proof {
            assert(c0@.subrange(0, c0@.len() as int) =~= c0@);
        }
        let a = match parse_i32_chars(&c0, 0, c0.len()) {
            Some(a) => a,
            None => {
                let mut msg = String::new();
                msg.append("left operand is not an integer");
                return Err(msg);
            },
        };
        let s1 = args[1].as_string();
        let c1 = string_to_chars(s1.as_str());
        proof {
            assert(c1@.subrange(0, c1@.len() as int) =~= c1@);
        }
        let b = match parse_i32_chars(&c1, 0, c1.len()) {
            Some(b) => b,
            None => {
                let mut msg = String::new();
                msg.append("right operand is not an integer");
                return Err(msg);
            },
        };
        let sum = (a as i64) + (b as i64);
        if sum < (i32::MIN as i64) || sum > (i32::MAX as i64) {
            let mut msg = String::new();
            msg.append("sum does not fit a 32-bit integer");
            return Err(msg);
        }
        let chars = format_i32(sum as i32);
        Ok(Literal::Word(chars_to_string(&chars)))
    }
}

} // verus!
