use simrs_jcvm::hypervisor::{Hypervisor, NullHypervisor};
use simrs_jcvm::vm::{JcVM};
#[test]
fn null_hypervisor_always_zero() {
    let mut h = NullHypervisor;
    assert_eq!(h.total_instructions(), 0);
    assert_eq!(h.max_frame_depth(), 0);
    assert_eq!(h.opcode_counts(), [0u64; 256]);
    h.reset_counters(); // no-op
    assert_eq!(h.total_instructions(), 0);
}

#[test]
fn jcvm_exposes_initial_zero_state() {
    let vm: JcVM<1024, 4> = JcVM::new();
    let h: &dyn Hypervisor = &vm;
    assert_eq!(h.total_instructions(), 0);
    assert_eq!(h.max_frame_depth(), 0);
    assert_eq!(h.opcode_counts(), [0u64; 256]);
}

#[test]
fn reset_counters_is_idempotent_on_fresh_vm() {
    let mut vm: JcVM<1024, 4> = JcVM::new();
    {
        let h: &mut dyn Hypervisor = &mut vm;
        h.reset_counters();
    }
    assert_eq!(vm.total_instructions(), 0);
}
