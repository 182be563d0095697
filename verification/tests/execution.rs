use zksync_os::execution::{ExecutionOutput, ExecutionResult};
use zksync_os::primitives::B160;

fn revert_output(r: ExecutionResult<'_>) -> Vec<u8> {
    match r {
        ExecutionResult::Revert { output } => output.to_vec(),
        ExecutionResult::Success { .. } => panic!("expected a revert"),
    }
}

#[test]
fn reverted_keeps_the_return_data() {
    let data = [1u8, 2, 3];
    let call = ExecutionResult::Success { output: ExecutionOutput::Call(&data) };
    assert_eq!(revert_output(call.reverted()), vec![1, 2, 3]);

    let create = ExecutionResult::Success { output: ExecutionOutput::Create(&data[1..], B160::from_array([9; 20])) };
    assert_eq!(revert_output(create.reverted()), vec![2, 3]);

    let revert = ExecutionResult::Revert { output: &data[..1] };
    assert_eq!(revert_output(revert.reverted()), vec![1]);
}
