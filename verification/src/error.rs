//! Error codes returned across the C boundary.
use vstd::prelude::*;

verus! {

/// Outcome of an entry point: success or the reason of failure.
#[derive(Clone, Copy, Debug, PartialEq, Eq, Structural)]
pub enum TropError {
    Success,
    NullPointer,
    InvalidDimension,
    NoControl,
    NoTreated,
    Convergence,
    Singular,
    Memory,
    RustPanic,
    LoocvFail,
    BootstrapFail,
    Computation,
    InvalidFpc,
    SingletonPsu,
}

/// Result whose failure is a [`TropError`].
pub type TropResult<T> = Result<T, TropError>;

/// Number of distinct codes.
pub const N_CODES: i32 = 14;

impl TropError {
    /// Integer code of an error: its position in the declaration.
    pub open spec fn spec_code(self) -> i32 {
        match self {
            TropError::Success => 0,
            TropError::NullPointer => 1,
            TropError::InvalidDimension => 2,
            TropError::NoControl => 3,
            TropError::NoTreated => 4,
            TropError::Convergence => 5,
            TropError::Singular => 6,
            TropError::Memory => 7,
            TropError::RustPanic => 8,
            TropError::LoocvFail => 9,
            TropError::BootstrapFail => 10,
            TropError::Computation => 11,
            TropError::InvalidFpc => 12,
            TropError::SingletonPsu => 13,
        }
    }

    /// Human-readable text of an error.
    pub open spec fn spec_message(self) -> Seq<char> {
        match self {
            TropError::Success => "Success"@,
            TropError::NullPointer => "Null pointer"@,
            TropError::InvalidDimension => "Invalid dimension"@,
            TropError::NoControl => "No control units"@,
            TropError::NoTreated => "No treated units"@,
            TropError::Convergence => "Convergence failure"@,
            TropError::Singular => "Singular matrix"@,
            TropError::Memory => "Memory allocation failure"@,
            TropError::RustPanic => "Rust panic"@,
            TropError::LoocvFail => "LOOCV failure"@,
            TropError::BootstrapFail => "Bootstrap failure"@,
            TropError::Computation => "Computation failure"@,
            TropError::InvalidFpc => "Invalid FPC value"@,
            TropError::SingletonPsu => "Singleton PSU stratum with no adjustment"@,
        }
    }

    /// Integer code handed to the caller.
    pub fn code(&self) -> (c: i32)
        ensures
            c == self.spec_code(),
    {
        match self {
            TropError::Success => 0,
            TropError::NullPointer => 1,
            TropError::InvalidDimension => 2,
            TropError::NoControl => 3,
            TropError::NoTreated => 4,
            TropError::Convergence => 5,
            TropError::Singular => 6,
            TropError::Memory => 7,
            TropError::RustPanic => 8,
            TropError::LoocvFail => 9,
            TropError::BootstrapFail => 10,
            TropError::Computation => 11,
            TropError::InvalidFpc => 12,
            TropError::SingletonPsu => 13,
        }
    }

    /// The error with the given code; `None` where no error has it.
    pub fn from_code(code: i32) -> (r: Option<Self>)
        ensures
            r is Some <==> 0 <= code < N_CODES,
            r is Some ==> r->0.spec_code() == code,
            forall|e: TropError| #[trigger] e.spec_code() == code ==> r == Some(e),
    {
        match code {
            0 => Some(TropError::Success),
            1 => Some(TropError::NullPointer),
            2 => Some(TropError::InvalidDimension),
            3 => Some(TropError::NoControl),
            4 => Some(TropError::NoTreated),
            5 => Some(TropError::Convergence),
            6 => Some(TropError::Singular),
            7 => Some(TropError::Memory),
            8 => Some(TropError::RustPanic),
            9 => Some(TropError::LoocvFail),
            10 => Some(TropError::BootstrapFail),
            11 => Some(TropError::Computation),
            12 => Some(TropError::InvalidFpc),
            13 => Some(TropError::SingletonPsu),
            _ => None,
        }
    }

    /// Whether this is the success code.
    pub fn is_success(&self) -> (b: bool)
        ensures
            b <==> *self == TropError::Success,
    {
        match self {
            TropError::Success => true,
            _ => false,
        }
    }

    /// Text shown to a user.
    pub fn message(&self) -> (s: &'static str)
        ensures
            s@ == self.spec_message(),
    {
        match self {
            TropError::Success => "Success",
            TropError::NullPointer => "Null pointer",
            TropError::InvalidDimension => "Invalid dimension",
            TropError::NoControl => "No control units",
            TropError::NoTreated => "No treated units",
            TropError::Convergence => "Convergence failure",
            TropError::Singular => "Singular matrix",
            TropError::Memory => "Memory allocation failure",
            TropError::RustPanic => "Rust panic",
            TropError::LoocvFail => "LOOCV failure",
            TropError::BootstrapFail => "Bootstrap failure",
            TropError::Computation => "Computation failure",
            TropError::InvalidFpc => "Invalid FPC value",
            TropError::SingletonPsu => "Singleton PSU stratum with no adjustment",
        }
    }
}

impl vstd::std_specs::convert::FromSpecImpl<TropError> for i32 {
    open spec fn obeys_from_spec() -> bool {
        true
    }

    open spec fn from_spec(err: TropError) -> i32 {
        err.spec_code()
    }
}

impl From<TropError> for i32 {
    fn from(err: TropError) -> (c: i32) {
        err.code()
    }
}

/// Codes are unique: two errors with the same code are the same error.
pub proof fn law_codes_unique(a: TropError, b: TropError)
    requires
        a.spec_code() == b.spec_code(),
    ensures
        a == b,
{
}

/// Codes fill `0..N_CODES` without a gap.
pub proof fn law_codes_contiguous(code: int)
    ensures
        (exists|e: TropError| #[trigger] e.spec_code() == code) <==> 0 <= code < N_CODES,
{
    assert(TropError::Success.spec_code() == 0);
    assert(TropError::NullPointer.spec_code() == 1);
    assert(TropError::InvalidDimension.spec_code() == 2);
    assert(TropError::NoControl.spec_code() == 3);
    assert(TropError::NoTreated.spec_code() == 4);
    assert(TropError::Convergence.spec_code() == 5);
    assert(TropError::Singular.spec_code() == 6);
    assert(TropError::Memory.spec_code() == 7);
    assert(TropError::RustPanic.spec_code() == 8);
    assert(TropError::LoocvFail.spec_code() == 9);
    assert(TropError::BootstrapFail.spec_code() == 10);
    assert(TropError::Computation.spec_code() == 11);
    assert(TropError::InvalidFpc.spec_code() == 12);
    assert(TropError::SingletonPsu.spec_code() == 13);
}

/// Only success has code zero.
pub proof fn law_zero_is_success(e: TropError)
    ensures
        e.spec_code() == 0 <==> e == TropError::Success,
{
}

/// The code of every error.
pub proof fn law_codes(e: TropError, c: i32)
    requires
        call_ensures(TropError::code, (&e,), c),
    ensures
        e == TropError::Success <==> c == 0,
        e == TropError::NullPointer <==> c == 1,
        e == TropError::InvalidDimension <==> c == 2,
        e == TropError::NoControl <==> c == 3,
        e == TropError::NoTreated <==> c == 4,
        e == TropError::Convergence <==> c == 5,
        e == TropError::Singular <==> c == 6,
        e == TropError::Memory <==> c == 7,
        e == TropError::RustPanic <==> c == 8,
        e == TropError::LoocvFail <==> c == 9,
        e == TropError::BootstrapFail <==> c == 10,
        e == TropError::Computation <==> c == 11,
        e == TropError::InvalidFpc <==> c == 12,
        e == TropError::SingletonPsu <==> c == 13,
{
}

/// Reading a code back gives the error that it was written for, and a number that is
/// no code gives none.
pub proof fn law_codes_are_read_back(e: TropError, c: i32, r: Option<TropError>)
    requires
        call_ensures(TropError::code, (&e,), c),
        call_ensures(TropError::from_code, (c,), r),
    ensures
        r == Some(e),
{
}

} // verus!
