use basalt::rv::enc::Enc;
use basalt::rv::softfloat::emit_runtime;
use basalt::rv::softfloat_ref::rtz_add32;

#[test]
fn emit_runtime_produces_a_nonempty_whole_instruction_stream() {
    let mut e = Enc::new();
    emit_runtime(&mut e);
    let bytes = e.finish();
    assert!(!bytes.is_empty());
    assert_eq!(
        bytes.len() % 4,
        0,
        "every RV32 instruction is exactly 4 bytes"
    );
}

#[test]
fn emit_runtime_is_deterministic() {
    let mut e1 = Enc::new();
    emit_runtime(&mut e1);
    let bytes1 = e1.finish();

    let mut e2 = Enc::new();
    emit_runtime(&mut e2);
    let bytes2 = e2.finish();

    assert_eq!(bytes1, bytes2);
}

#[test]
fn desk_checked_add_case_is_documented_above() {
    let a: u32 = 0x3f80_0000;
    let b: u32 = 0x4000_0000;
    let expect: u32 = 0x4040_0000;
    assert_eq!(
        f32::from_bits(a) + f32::from_bits(b),
        f32::from_bits(expect)
    );
    assert_eq!(rtz_add32(a, b), expect);
}

#[test]
fn the_runtime_is_the_same_bytes_at_every_offset() {
    let mut e = Enc::new();
    emit_runtime(&mut e);
    let alone = e.finish();
    for k in [1, 2, 7, 1000] {
        let mut e = Enc::new();
        for _ in 0..k {
            e.nop();
        }
        emit_runtime(&mut e);
        assert!(e.is_linkable());
        let code = e.finish();
        assert_eq!(code[4 * k..], alone[..]);
    }
}
