//! `DEMOAVG`, the average of integers, as an example of an aggregate.
//!
//! The state of the aggregate is the sum of the values met and their count.
//! Its text is the two numbers in decimal, joined by a comma.

use vstd::prelude::*;
use vstd::string::*;
use crate::decimal::{
    decimal,
    int_text,
    is_digit,
    lemma_decimal_writes,
    lemma_int_text_round_trip,
    parse_i32,
    parse_i32_range,
    push_i32,
};
use crate::text::{chars_of, find_char, first_index_of, lemma_first_index_of};

verus! {

/// The state of `DEMOAVG`: the sum of the values met so far, and how many
/// there were.
#[derive(Copy, Clone, Debug, PartialEq, Eq, Structural)]
pub struct IntegerAvgState {
    pub sum: i32,
    pub n: i32,
}

/// `a` divided by `b`, rounded towards zero.
pub open spec fn truncating_quotient(a: int, b: int) -> int {
    let (x, y) = if b < 0 {
        (-a, -b)
    } else {
        (a, b)
    };
    if x >= 0 {
        x / y
    } else {
        -((-x) / y)
    }
}

/// The text of a state: its sum, a comma, its count.
pub open spec fn state_text(state: IntegerAvgState) -> Seq<char> {
    int_text(state.sum as int) + seq![','] + int_text(state.n as int)
}

/// The state that `text` writes: a 32-bit integer before the first comma
/// and one after it. `None` if there is no comma, or if either part does
/// not write a 32-bit integer.
pub open spec fn state_from_text(text: Seq<char>) -> Option<IntegerAvgState> {
    let comma = first_index_of(text, ',');
    if 0 <= comma < text.len() {
        match (parse_i32(text.take(comma)), parse_i32(text.skip(comma + 1))) {
            (Some(sum), Some(n)) => Some(IntegerAvgState { sum, n }),
            _ => None,
        }
    } else {
        None
    }
}

/// The decimal text of an integer holds no comma.
proof fn lemma_int_text_has_no_comma(v: int)
    ensures
        forall|k: int| 0 <= k < int_text(v).len() ==> int_text(v)[k] != ',',
{
    let m = if v < 0 { (-v) as nat } else { v as nat };
    lemma_decimal_writes(m);
    assert forall|k: int| 0 <= k < int_text(v).len() implies int_text(v)[k] != ',' by {
        if v < 0 {
            if k > 0 {
                assert(int_text(v)[k] == decimal(m)[k - 1]);
                assert(is_digit(decimal(m)[k - 1]));
            }
        } else {
            assert(is_digit(decimal(m)[k]));
        }
    }
}

/// Reading the text of a state gives the state back.
pub proof fn lemma_state_text_round_trip(state: IntegerAvgState)
    ensures
        state_from_text(state_text(state)) == Some(state),
{
    let sum = int_text(state.sum as int);
    let n = int_text(state.n as int);
    let text = state_text(state);
    lemma_int_text_has_no_comma(state.sum as int);
    assert forall|k: int| 0 <= k < sum.len() implies text[k] != ',' by {
        assert(text[k] == sum[k]);
    }
    assert(text[sum.len() as int] == ',');
    lemma_first_index_of(text, ',', sum.len() as int);
    assert(text.take(sum.len() as int) =~= sum);
    assert(text.skip(sum.len() as int + 1) =~= n);
    lemma_int_text_round_trip(state.sum as int);
    lemma_int_text_round_trip(state.n as int);
}

impl Default for IntegerAvgState {
    /// The state before any value: sum and count are zero.
    fn default() -> (r: Self)
        ensures
            r == (IntegerAvgState { sum: 0, n: 0 }),
    {
        Self { sum: 0, n: 0 }
    }
}

impl IntegerAvgState {
    /// The state that `input` writes, or `None` if it writes none.
    pub fn input(input: &str) -> (r: Option<IntegerAvgState>)
        ensures
            r == state_from_text(input@),
    {
        let chars = chars_of(input);
        let len = chars.len();
        let comma = find_char(&chars, 0, len, ',');
        assert(chars@.subrange(0, len as int) =~= chars@);
        if comma == len {
            return None;
        }
        assert(chars@.take(comma as int) =~= chars@.subrange(0, comma as int));
        assert(chars@.skip(comma + 1) =~= chars@.subrange(comma + 1, len as int));
        let sum = match parse_i32_range(&chars, 0, comma) {
            Some(sum) => sum,
            None => {
                return None;
            },
        };
        let n = match parse_i32_range(&chars, comma + 1, len) {
            Some(n) => n,
            None => {
                return None;
            },
        };
        Some(IntegerAvgState { sum, n })
    }

    /// Append the text of the state to `buffer`.
    pub fn output(&self, buffer: &mut String)
        ensures
            final(buffer)@ == old(buffer)@ + state_text(*self),
    {
        push_i32(buffer, self.sum);
        proof {
            reveal_strlit(",");
        }
        buffer.append(",");
        push_i32(buffer, self.n);
        assert(old(buffer)@ + int_text(self.sum as int) + ","@ + int_text(self.n as int) =~= old(
            buffer,
        )@ + state_text(*self));
    }

    /// The state after one more value.
    pub fn acc(&self, v: i32) -> (r: IntegerAvgState)
        requires
            i32::MIN <= self.sum + v <= i32::MAX,
            self.n < i32::MAX,
        ensures
            r.sum == self.sum + v,
            r.n == self.n + 1,
    {
        IntegerAvgState { sum: self.sum + v, n: self.n + 1 }
    }

    /// The average of the values met: the sum divided by the count,
    /// rounded towards zero.
    pub fn finalize(&self) -> (r: i32)
        requires
            self.n != 0,
            !(self.sum == i32::MIN && self.n == -1),
        ensures
            r == truncating_quotient(self.sum as int, self.n as int),
    {
        if self.n > 0 {
            self.sum / self.n
        } else {
            let x: i64 = -(self.sum as i64);
            let y: i64 = -(self.n as i64);
            proof {
                let a: int = if x >= 0 { x as int } else { -x };
                let b: int = y as int;
                assert(0 <= a / b <= a) by (nonlinear_arith)
                    requires
                        a >= 0,
                        b >= 1,
                ;
                if b >= 2 {
                    assert(2 * (a / b) <= a) by (nonlinear_arith)
                        requires
                            a >= 0,
                            b >= 2,
                    ;
                }
            }
            (x / y) as i32
        }
    }
}

/// The state transition function of `DEMOAVG`: the state after
/// `next_data_value`.
pub fn integer_avg_state_func(internal_state: IntegerAvgState, next_data_value: i32) -> (r:
    IntegerAvgState)
    requires
        i32::MIN <= internal_state.sum + next_data_value <= i32::MAX,
        internal_state.n < i32::MAX,
    ensures
        r.sum == internal_state.sum + next_data_value,
        r.n == internal_state.n + 1,
{
    internal_state.acc(next_data_value)
}

/// The final function of `DEMOAVG`: the average that the state stands for.
pub fn integer_avg_final_func(internal_state: IntegerAvgState) -> (r: i32)
    requires
        internal_state.n != 0,
        !(internal_state.sum == i32::MIN && internal_state.n == -1),
    ensures
        r == truncating_quotient(internal_state.sum as int, internal_state.n as int),
{
    internal_state.finalize()
}

} // verus!
