//! The operations of a transform pipeline and the pipeline itself.

use vstd::prelude::*;

verus! {

/// The interpolation that a resize samples the source image with.
#[derive(Clone, Copy, Debug, PartialEq, Eq, Structural)]
pub enum SampleFilter {
    Nearest,
    Triangle,
    CatmullRom,
    Gaussian,
    Lanczos3,
}

/// A named stylistic filter.
#[derive(Clone, Copy, Debug, PartialEq, Eq, Structural)]
pub enum FilterKind {
    Oceanic,
    Islands,
    Marine,
}

/// One step of a transform pipeline. Each variant carries what the image engine
/// needs and nothing else.
#[derive(Clone, Copy, Debug, PartialEq, Eq, Structural)]
pub enum Operation {
    /// Scale to exactly `target_width` x `target_height` pixels. Both must be
    /// positive.
    Resize { target_width: u32, target_height: u32, filter_kind: SampleFilter },
    /// Overlay the watermark with its top-left corner at (`x`, `y`). The position
    /// may lie off the canvas on any side.
    Watermark { x: i32, y: i32 },
    /// Apply a stylistic filter to the whole image.
    Filter { kind: FilterKind },
}

/// The greatest number of operations that one pipeline holds.
pub const MAX_OPERATIONS: usize = 255;

impl Operation {
    /// The constraint that each variant puts on its parameters.
    pub open spec fn valid(self) -> bool {
        match self {
            Operation::Resize { target_width, target_height, .. } => target_width > 0
                && target_height > 0,
            _ => true,
        }
    }

    pub fn new_resize(target_width: u32, target_height: u32, filter_kind: SampleFilter) -> (op:
        Operation)
        ensures
            op == (Operation::Resize { target_width, target_height, filter_kind }),
    {
        Operation::Resize { target_width, target_height, filter_kind }
    }

    pub fn new_watermark(x: i32, y: i32) -> (op: Operation)
        ensures
            op == (Operation::Watermark { x, y }),
    {
        Operation::Watermark { x, y }
    }

    pub fn new_filter(kind: FilterKind) -> (op: Operation)
        ensures
            op == (Operation::Filter { kind }),
    {
        Operation::Filter { kind }
    }

    pub fn is_valid(&self) -> (ok: bool)
        ensures
            ok == self.valid(),
    {
        match self {
            Operation::Resize { target_width, target_height, .. } => *target_width > 0
                && *target_height > 0,
            _ => true,
        }
    }
}

/// Whether `ops` may form a pipeline: it is short enough and each operation
/// meets its constraint.
pub open spec fn valid_pipeline(ops: Seq<Operation>) -> bool {
    &&& ops.len() <= MAX_OPERATIONS
    &&& forall|i: int| 0 <= i < ops.len() ==> (#[trigger] ops[i]).valid()
}

/// Why a list of operations is no pipeline.
#[derive(Clone, Copy, Debug, PartialEq, Eq, Structural)]
pub enum SpecError {
    /// More than `MAX_OPERATIONS` operations.
    TooManyOperations,
    /// The operation at `index` breaks its variant's constraint, and none before
    /// it does.
    InvalidOperation { index: usize },
}

/// An ordered pipeline of operations, applied left to right. Every value of this
/// type is a valid pipeline.
#[derive(Debug, PartialEq, Eq)]
pub struct TransformSpec {
    ops: Vec<Operation>,
}

impl View for TransformSpec {
    type V = Seq<Operation>;

    closed spec fn view(&self) -> Seq<Operation> {
        self.ops@
    }
}

impl TransformSpec {
    #[verifier::type_invariant]
    spec fn well_formed(self) -> bool {
        valid_pipeline(self.ops@)
    }

    /// Makes a pipeline of `ops`, or says why they form none.
    pub fn new(ops: Vec<Operation>) -> (made: Result<TransformSpec, SpecError>)
        ensures
            match made {
                Ok(spec) => valid_pipeline(ops@) && spec@ == ops@,
                Err(SpecError::TooManyOperations) => ops.len() > MAX_OPERATIONS,
                Err(SpecError::InvalidOperation { index }) => {
                    &&& ops.len() <= MAX_OPERATIONS
                    &&& index < ops.len()
                    &&& !ops@[index as int].valid()
                    &&& forall|j: int| 0 <= j < index ==> (#[trigger] ops@[j]).valid()
                },
            },
    {
        if ops.len() > MAX_OPERATIONS {
            return Err(SpecError::TooManyOperations);
        }
        let mut i: usize = 0;
        while i < ops.len()
            invariant
                i <= ops.len() <= MAX_OPERATIONS,
                forall|j: int| 0 <= j < i ==> (#[trigger] ops@[j]).valid(),
            decreases ops.len() - i,
        {
            if !ops[i].is_valid() {
                return Err(SpecError::InvalidOperation { index: i });
            }
            i += 1;
        }
        Ok(TransformSpec { ops })
    }

    /// The pipeline of no operations.
    pub fn empty() -> (spec: TransformSpec)
        ensures
            spec@ == Seq::<Operation>::empty(),
    {
        TransformSpec { ops: Vec::new() }
    }

    /// Makes a pipeline of operations that are known to form one.
    pub(crate) fn from_valid(ops: Vec<Operation>) -> (spec: TransformSpec)
        requires
            valid_pipeline(ops@),
        ensures
            spec@ == ops@,
    {
        TransformSpec { ops }
    }

    /// The operations, in the order in which they apply.
    pub fn operations(&self) -> (ops: &Vec<Operation>)
        ensures
            ops@ == self@,
            valid_pipeline(self@),
    {
        proof {
            use_type_invariant(self);
        }
        &self.ops
    }

    pub fn len(&self) -> (n: usize)
        ensures
            n == self@.len(),
            n <= MAX_OPERATIONS,
    {
        proof {
            use_type_invariant(self);
        }
        self.ops.len()
    }
}

impl Clone for TransformSpec {
    fn clone(&self) -> (copy: Self)
        ensures
            copy@ == self@,
    {
        proof {
            use_type_invariant(self);
        }
        let ops = self.ops.clone();
        assert(ops@ =~= self.ops@);
        TransformSpec { ops }
    }
}

} // verus!
