use vstd::prelude::*;
use crate::data_type::{DataType, ExpandType};
use crate::diff::Component;

verus! {

/// What a transform declaration offers the topology: the kinds of events it
/// takes and gives, its type tag, and, for a transform that stands for a
/// group of others, the children it expands into.
pub trait TransformConfig {
    /// The kind of event the transform accepts.
    fn input_type(&self) -> DataType;

    /// The kind of event the transform produces.
    fn output_type(&self) -> DataType;

    /// The tag under which the transform is registered.
    fn transform_type(&self) -> &'static str;

    /// The named children that replace this transform and how they are
    /// composed, or `None` for a transform that stands alone.
    fn expand(&mut self) -> Option<(Vec<(String, Component)>, ExpandType)> {
        None
    }
}

} // verus!
