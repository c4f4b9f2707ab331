//! Arrays as arguments of a kernel launch: what is handed to the launch and
//! what the compiler learns from it.

use cubecl_runtime::server::Handle;
use vstd::prelude::*;

verus! {

#[verifier::external_type_specification]
#[verifier::external_body]
pub struct ExHandle(Handle);

/// The vectorization of an argument: the number of lanes, or none.
pub type Vectorization = Option<u8>;

/// What the compiler learns of an array argument.
#[derive(Clone, Debug, PartialEq, Eq, Hash)]
pub struct ArrayCompilationArg {
    /// The position of the input that the array is written into, if it
    /// aliases one.
    pub inplace: Option<u16>,
    pub vectorisation: Vectorization,
}

/// Tensor representation with a reference to the server handle: an array
/// is a tensor of one dimension.
pub struct TensorHandleRef<'a> {
    pub handle: &'a Handle,
    pub strides: [usize; 1],
    pub shape: [usize; 1],
    pub elem_size: usize,
}

/// Array representation with a reference to the server handle.
pub struct ArrayHandleRef<'a> {
    pub handle: &'a Handle,
    pub length: [usize; 1],
    pub elem_size: usize,
}

/// A resource of the runtime that holds an array.
pub struct RawResource<S>(pub S);

/// An array as it is handed to a launch.
pub enum ArrayArg<'a, S> {
    /// The array is passed with an array handle.
    Handle {
        /// The array handle.
        handle: ArrayHandleRef<'a>,
        /// The vectorization factor.
        vectorization_factor: u8,
    },
    /// The array is aliasing another input array.
    Alias {
        /// The position of the input array.
        input_pos: usize,
    },
    /// The array is a resource of the runtime.
    Resource(RawResource<S>),
}

impl<'a> ArrayHandleRef<'a> {
    /// Create a new array handle reference. Specifying the wrong length may
    /// lead to out-of-bounds reads and writes in the kernel.
    pub fn from_raw_parts(handle: &'a Handle, length: usize, elem_size: usize) -> (made: Self)
        ensures
            made.handle == handle,
            made.length@ == seq![length],
            made.elem_size == elem_size,
    {
        let made = ArrayHandleRef { handle, length: [length], elem_size };
        assert(made.length@ =~= seq![length]);
        made
    }

    /// Return the handle as a tensor instead of an array: one dimension of
    /// the length of the array, with stride 1.
    pub fn as_tensor(&self) -> (tensor: TensorHandleRef<'a>)
        ensures
            tensor.handle == self.handle,
            tensor.strides@ == seq![1usize],
            tensor.shape@ == self.length@,
            tensor.elem_size == self.elem_size,
    {
        let tensor = TensorHandleRef {
            handle: self.handle,
            strides: [1],
            shape: [self.length[0]],
            elem_size: self.elem_size,
        };
        assert(tensor.strides@ =~= seq![1usize]);
        assert(tensor.shape@ =~= self.length@);
        tensor
    }
}

impl<'a, S> ArrayArg<'a, S> {
    /// Create a new array argument with a manual element size in bytes.
    /// Specifying the wrong length may lead to out-of-bounds reads and
    /// writes in the kernel.
    pub fn from_raw_parts_and_size(
        handle: &'a Handle,
        length: usize,
        vectorization_factor: u8,
        elem_size: usize,
    ) -> (made: Self)
        ensures
            made matches ArrayArg::Handle { handle: h, vectorization_factor: v } && h.handle
                == handle && h.length@ == seq![length] && h.elem_size == elem_size && v
                == vectorization_factor,
    {
        ArrayArg::Handle {
            handle: ArrayHandleRef::from_raw_parts(handle, length, elem_size),
            vectorization_factor,
        }
    }

    /// Create a new array argument for elements of the given width in bits.
    /// Specifying the wrong length may lead to out-of-bounds reads and
    /// writes in the kernel.
    pub fn from_raw_parts(
        handle: &'a Handle,
        length: usize,
        vectorization_factor: u8,
        elem_bits: u32,
    ) -> (made: Self)
        ensures
            made matches ArrayArg::Handle { handle: h, vectorization_factor: v } && h.handle
                == handle && h.length@ == seq![length] && h.elem_size == elem_bits / 8 && v
                == vectorization_factor,
    {
        ArrayArg::Handle {
            handle: ArrayHandleRef::from_raw_parts(handle, length, (elem_bits / 8) as usize),
            vectorization_factor,
        }
    }

    /// Create an array from the corresponding resource of the runtime. The
    /// caller has to ensure that the resource is valid and is not aliased.
    pub fn from_raw_resource(resource: RawResource<S>) -> (made: Self)
        ensures
            made == ArrayArg::<'a, S>::Resource(resource),
    {
        ArrayArg::Resource(resource)
    }

    /// What the compiler learns of the argument, where it is defined: a
    /// handle with a vectorization factor other than zero is passed with
    /// that factor and in no input's place; an alias stands in the place of
    /// the input at its position, as far as a `u16` holds the position, and
    /// has no vectorization; of a resource nothing is learned.
    pub open spec fn compilation_arg_spec(&self) -> Option<ArrayCompilationArg> {
        match self {
            ArrayArg::Handle { vectorization_factor, .. } => if *vectorization_factor != 0 {
                Some(
                    ArrayCompilationArg {
                        inplace: None,
                        vectorisation: Some(*vectorization_factor),
                    },
                )
            } else {
                None
            },
            ArrayArg::Alias { input_pos } => Some(
                ArrayCompilationArg {
                    inplace: Some((*input_pos % 0x1_0000) as u16),
                    vectorisation: None,
                },
            ),
            ArrayArg::Resource(_) => None,
        }
    }

    /// What the compiler learns of the argument.
    pub fn compilation_arg(&self) -> (arg: Option<ArrayCompilationArg>)
        ensures
            arg == self.compilation_arg_spec(),
    {
        match self {
            ArrayArg::Handle { vectorization_factor, .. } => {
                if *vectorization_factor != 0 {
                    Some(
                        ArrayCompilationArg {
                            inplace: None,
                            vectorisation: Some(*vectorization_factor),
                        },
                    )
                } else {
                    None
                }
            },
            ArrayArg::Alias { input_pos } => Some(
                ArrayCompilationArg {
                    inplace: Some((*input_pos % 0x1_0000) as u16),
                    vectorisation: None,
                },
            ),
            ArrayArg::Resource(_) => None,
        }
    }
}

} // verus!
