use vstd::prelude::*;

verus! {

/// The coarse kind of event a component accepts or produces.
#[derive(Debug, Clone, Copy, PartialEq, Eq, Structural)]
pub enum DataType {
    Any,
    Log,
    Metric,
}

/// Whether an output of kind `output` may feed an input that declares `input`.
pub open spec fn spec_accepts(input: DataType, output: DataType) -> bool {
    input == DataType::Any || output == DataType::Any || input == output
}

impl DataType {
    /// True when an output of kind `output` may feed an input declaring `self`.
    pub fn accepts(self, output: DataType) -> (r: bool)
        ensures
            r == spec_accepts(self, output),
    {
        match (self, output) {
            (DataType::Any, _) => true,
            (_, DataType::Any) => true,
            (DataType::Log, DataType::Log) => true,
            (DataType::Metric, DataType::Metric) => true,
            _ => false,
        }
    }
}

/// How the children of an expanded transform are composed.
#[derive(Debug, Clone, Copy, PartialEq, Eq, Structural)]
pub enum ExpandType {
    /// Every child sees the same input.
    Parallel,
    /// Children are chained one after another.
    Serial,
}

} // verus!
