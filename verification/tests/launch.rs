use cubecl_opt::launch::{ArrayArg, ArrayCompilationArg, ArrayHandleRef, RawResource};
use cubecl_runtime::memory_management::{
    MemoryConfiguration, MemoryDeviceProperties, MemoryManagement,
};
use cubecl_runtime::server::Handle;
use cubecl_runtime::storage::BytesStorage;

fn handle() -> Handle {
    let mut memory = MemoryManagement::from_configuration(
        BytesStorage::default(),
        MemoryDeviceProperties { max_page_size: 128 * 1024 * 1024, alignment: 32 },
        MemoryConfiguration::SubSlices,
    );
    Handle::new(memory.reserve(64, None), None, None)
}

#[test]
fn array_handle_as_tensor() {
    let handle = handle();
    let array = ArrayHandleRef::from_raw_parts(&handle, 16, 4);
    assert_eq!(array.length, [16]);
    assert_eq!(array.elem_size, 4);
    let tensor = array.as_tensor();
    assert_eq!(tensor.shape, [16]);
    assert_eq!(tensor.strides, [1]);
    assert_eq!(tensor.elem_size, 4);
    assert!(std::ptr::eq(tensor.handle, &handle));
}

#[test]
fn compilation_arg_of_a_handle() {
    let handle = handle();
    let arg: ArrayArg<()> = ArrayArg::from_raw_parts(&handle, 16, 4, 32);
    match &arg {
        ArrayArg::Handle { handle, vectorization_factor } => {
            assert_eq!(handle.elem_size, 4);
            assert_eq!(*vectorization_factor, 4);
        }
        _ => unreachable!(),
    }
    assert_eq!(
        arg.compilation_arg(),
        Some(ArrayCompilationArg { inplace: None, vectorisation: Some(4) })
    );
    let unvectorized: ArrayArg<()> = ArrayArg::from_raw_parts_and_size(&handle, 16, 0, 2);
    assert_eq!(unvectorized.compilation_arg(), None);
}

#[test]
fn compilation_arg_of_an_alias_and_of_a_resource() {
    let alias: ArrayArg<()> = ArrayArg::Alias { input_pos: 3 };
    assert_eq!(
        alias.compilation_arg(),
        Some(ArrayCompilationArg { inplace: Some(3), vectorisation: None })
    );
    let far: ArrayArg<()> = ArrayArg::Alias { input_pos: 65536 + 7 };
    assert_eq!(
        far.compilation_arg(),
        Some(ArrayCompilationArg { inplace: Some(7), vectorisation: None })
    );
    let resource = ArrayArg::from_raw_resource(RawResource(5u8));
    assert_eq!(resource.compilation_arg(), None);
}
