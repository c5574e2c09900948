//! Values on the on-chain virtual machine's stack, its errors, and how reads and logs are handled.
use vstd::prelude::*;
use crate::bytes::same_bytes;
use crate::state::{AlignedValue, StateModel, StateValue};

verus! {

/// Whether a value on the stack may be written back to contract state.
#[derive(Clone, Copy, Debug, PartialEq, Eq, Structural, PartialOrd, Ord, Hash)]
pub enum ValueStrength {
    Weak,
    Strong,
}

/// Strong only when both are strong.
pub open spec fn strength_and(a: ValueStrength, b: ValueStrength) -> ValueStrength {
    match (a, b) {
        (ValueStrength::Strong, ValueStrength::Strong) => ValueStrength::Strong,
        _ => ValueStrength::Weak,
    }
}

impl core::ops::BitAnd for ValueStrength {
    type Output = ValueStrength;

    fn bitand(self, rhs: Self) -> (r: ValueStrength) {
        match (self, rhs) {
            (ValueStrength::Strong, ValueStrength::Strong) => ValueStrength::Strong,
            _ => ValueStrength::Weak,
        }
    }
}

impl vstd::std_specs::ops::BitAndSpecImpl for ValueStrength {
    open spec fn obeys_bitand_spec() -> bool {
        true
    }

    open spec fn bitand_req(self, rhs: ValueStrength) -> bool {
        true
    }

    open spec fn bitand_spec(self, rhs: ValueStrength) -> ValueStrength {
        strength_and(self, rhs)
    }
}

/// A value on the virtual machine's stack, with its strength.
#[derive(Debug)]
pub struct VmValue {
    pub strength: ValueStrength,
    pub value: StateValue,
}

impl VmValue {
    /// A stack value of `strength` holding `value`.
    pub fn new(strength: ValueStrength, value: StateValue) -> (v: Self)
        ensures
            v.strength == strength,
            v.value == value,
    {
        VmValue { strength, value }
    }
}

/// A value of a built-in type could not be decoded; names the type.
#[derive(Clone, Copy, Debug, PartialEq, Eq)]
pub struct InvalidBuiltinDecode(pub &'static str);

/// Why a virtual machine program failed.
#[derive(Debug)]
pub enum OnchainProgramError {
    RanOffStack,
    RanPastProgramEnd,
    ExpectedCell(StateValue),
    Decode(InvalidBuiltinDecode),
    ArithmeticOverflow,
    TooLongForEqual,
    TypeError,
    OutOfGas,
    BoundsExceeded,
    InvalidArgs,
    MissingKey,
    CacheMiss,
    AttemptedArrayDelete,
    ReadMismatch { expected: AlignedValue, actual: AlignedValue },
}

impl From<InvalidBuiltinDecode> for OnchainProgramError {
    fn from(err: InvalidBuiltinDecode) -> (r: OnchainProgramError) {
        OnchainProgramError::Decode(err)
    }
}

impl vstd::std_specs::convert::FromSpecImpl<InvalidBuiltinDecode> for OnchainProgramError {
    open spec fn obeys_from_spec() -> bool {
        true
    }

    open spec fn from_spec(err: InvalidBuiltinDecode) -> OnchainProgramError {
        OnchainProgramError::Decode(err)
    }
}

/// Reading a state value as a cell.
pub trait StateValueExt {
    /// The cell's value, or an error carrying the value that is not a cell.
    fn as_cell(&self) -> (r: Result<AlignedValue, OnchainProgramError>);

    /// The cell's value by reference, or an error carrying the value that is not a cell.
    fn as_cell_ref(&self) -> (r: Result<&AlignedValue, OnchainProgramError>);
}

impl StateValueExt for StateValue {
    fn as_cell(&self) -> (r: Result<AlignedValue, OnchainProgramError>)
        ensures
            match self {
                StateValue::Cell(c) => r matches Ok(v) && v.0@ == c.0@,
                _ => r matches Err(OnchainProgramError::ExpectedCell(v)) && v.model() == self.model(),
            },
    {
        match self {
            StateValue::Cell(c) => Ok(c.duplicate()),
            _ => Err(OnchainProgramError::ExpectedCell(self.duplicate())),
        }
    }

    fn as_cell_ref(&self) -> (r: Result<&AlignedValue, OnchainProgramError>)
        ensures
            match self {
                StateValue::Cell(c) => r == Ok::<&AlignedValue, OnchainProgramError>(c),
                _ => r matches Err(OnchainProgramError::ExpectedCell(v)) && v.model() == self.model(),
            },
    {
        match self {
            StateValue::Cell(c) => Ok(c),
            _ => Err(OnchainProgramError::ExpectedCell(self.duplicate())),
        }
    }
}

impl VmValue {
    /// The value as a cell; see `StateValueExt::as_cell`.
    pub fn as_cell(&self) -> (r: Result<AlignedValue, OnchainProgramError>)
        ensures
            match self.value {
                StateValue::Cell(c) => r matches Ok(v) && v.0@ == c.0@,
                _ => r matches Err(OnchainProgramError::ExpectedCell(v)) && v.model() == self.value.model(),
            },
    {
        self.value.as_cell()
    }

    /// The value as a cell, by reference; see `StateValueExt::as_cell_ref`.
    pub fn as_cell_ref(&self) -> (r: Result<&AlignedValue, OnchainProgramError>)
        ensures
            match self.value {
                StateValue::Cell(c) => r == Ok::<&AlignedValue, OnchainProgramError>(&c),
                _ => r matches Err(OnchainProgramError::ExpectedCell(v)) && v.model() == self.value.model(),
            },
    {
        self.value.as_cell_ref()
    }
}


/// How a program run treats the values it reads and the events it logs.
pub trait ResultMode {
    /// What the program is given for each read.
    type ReadResult;

    /// What the run records.
    type Event;

    /// Checks or records a read of `observed`, given `result`.
    fn process_read(result: &Self::ReadResult, observed: &AlignedValue) -> Result<
        Option<Self::Event>,
        OnchainProgramError,
    >;

    /// Records a logged value, if this mode records logs.
    fn process_log(event: &StateValue) -> Option<Self::Event>;
}

/// Verifying a run: every read must match the value given for it, and nothing is recorded.
#[derive(Clone, Copy, Debug, PartialEq, Eq, PartialOrd, Ord)]
pub struct ResultModeVerify;

impl ResultMode for ResultModeVerify {
    type ReadResult = AlignedValue;

    type Event = ();

    fn process_read(expected: &AlignedValue, actual: &AlignedValue) -> (r: Result<Option<()>, OnchainProgramError>)
        ensures
            expected.0@ == actual.0@ ==> r == Ok::<Option<()>, OnchainProgramError>(None),
            expected.0@ != actual.0@ ==> (r matches Err(OnchainProgramError::ReadMismatch { expected: e, actual: a })
                && e.0@ == expected.0@ && a.0@ == actual.0@),
    {
        if !same_bytes(&expected.0, &actual.0) {
            Err(OnchainProgramError::ReadMismatch { expected: expected.duplicate(), actual: actual.duplicate() })
        } else {
            Ok(None)
        }
    }

    fn process_log(event: &StateValue) -> (r: Option<()>)
        ensures
            r is None,
    {
        None
    }
}

/// What a gathering run records: a value read, or a value logged.
#[derive(Debug)]
pub enum GatherEvent {
    Read(AlignedValue),
    Log(StateValue),
}

/// Gathering a run: every read and every log is recorded, in order.
#[derive(Clone, Copy, Debug, PartialEq, Eq)]
pub struct ResultModeGather;

impl ResultMode for ResultModeGather {
    type ReadResult = ();

    type Event = GatherEvent;

    fn process_read(result: &(), observed: &AlignedValue) -> (r: Result<Option<GatherEvent>, OnchainProgramError>)
        ensures
            r matches Ok(Some(GatherEvent::Read(v))) && v.0@ == observed.0@,
    {
        Ok(Some(GatherEvent::Read(observed.duplicate())))
    }

    fn process_log(event: &StateValue) -> (r: Option<GatherEvent>)
        ensures
            r matches Some(GatherEvent::Log(v)) && v.model() == event.model(),
    {
        Some(GatherEvent::Log(event.duplicate()))
    }
}

} // verus!
