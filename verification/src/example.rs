//! A sample operator written against the generated bindings: adding two
//! integers, with overflow as its one error.
use vstd::prelude::*;

verus! {

/// The state that the runtime hands every operator.
pub struct Context {
    dummy: i32,
}

impl View for Context {
    type V = i32;

    closed spec fn view(&self) -> i32 {
        self.dummy
    }
}

impl Context {
    /// The context that a new runtime session starts with.
    pub fn create() -> (r: Context)
        ensures
            r@ == 42,
    {
        Context { dummy: 42 }
    }
}

/// The inputs of `add`.
pub struct AddIn {
    pub a: i32,
    pub b: i32,
}

/// The errors of `add`.
#[derive(Copy, Clone, Debug, PartialEq, Eq, Structural)]
pub enum Error {
    Overflow,
}

/// The sum of the two inputs, or `Overflow` where it does not fit an `i32`.
pub fn add(_ctx: &Context, input: &AddIn) -> (r: Result<i32, Error>)
    ensures
        match r {
            Ok(v) => v == input.a + input.b,
            Err(e) => e == Error::Overflow && (input.a + input.b < i32::MIN || input.a + input.b > i32::MAX),
        },
{
    match input.a.checked_add(input.b) {
        Some(v) => Ok(v),
        None => Err(Error::Overflow),
    }
}

/// The status code and the output of a call of the operator across the
/// foreign boundary: -1 where the context, the input or the place for the
/// output is missing; otherwise 0 and the sum, or the positive code of the
/// error (1 for `Overflow`, its first and only error).
pub fn add_status(ctx: Option<&Context>, input: Option<&AddIn>, has_output: bool) -> (r: (i32, Option<i32>))
    ensures
        ctx is None || input is None || !has_output ==> r == (-1i32, None::<i32>),
        ctx is Some && input is Some && has_output ==> ({
            let sum = input->0.a + input->0.b;
            if i32::MIN <= sum <= i32::MAX {
                r == (0i32, Some(sum as i32))
            } else {
                r == (1i32, None::<i32>)
            }
        }),
{
    match (ctx, input) {
        (Some(ctx), Some(input)) => if has_output {
            match self::add(ctx, input) {
                Ok(v) => (0, Some(v)),
                Err(Error::Overflow) => (1, None),
            }
        } else {
            (-1, None)
        },
        _ => (-1, None),
    }
}

} // verus!
