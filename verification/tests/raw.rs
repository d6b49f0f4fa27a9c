use ruterm::raw::{raw, Device, TermAttrs, Termios};

fn sample_attrs() -> TermAttrs {
    TermAttrs {
        c_iflag: 0xffff_ffff,
        c_oflag: 0xffff_ffff,
        c_cflag: 0x0000_0000,
        c_lflag: 0xffff_ffff,
        vmin: 1,
        vtime: 0,
    }
}

#[test]
fn raw_clears_and_sets_the_documented_flags() {
    let r = raw(sample_attrs());
    // ECHO 0x8, ICANON 0x2, IEXTEN 0x8000, ISIG 0x1 cleared.
    assert_eq!(0xffff_ffff & !(0x8u32 | 0x2 | 0x8000 | 0x1), r.c_lflag);
    // IXON 0x400, ICRNL 0x100 cleared.
    assert_eq!(0xffff_ffff & !(0x400u32 | 0x100), r.c_iflag);
    // OPOST 0x1 cleared.
    assert_eq!(0xffff_ffff & !0x1u32, r.c_oflag);
    // CS8 0x30 set.
    assert_eq!(0x30, r.c_cflag);
    // Non-blocking-ish reads: no minimum byte count, 1 deci-second timeout.
    assert_eq!(0, r.vmin);
    assert_eq!(1, r.vtime);
}

#[test]
fn restoration_recovers_captured_attributes() {
    let captured = sample_attrs();
    let mut device = Device { attrs: captured };
    let session = Termios::new(&device);
    session.raw(&mut device);
    assert_ne!(captured, device.attrs);
    // Arbitrary work scribbles over the device state in between.
    device.attrs.c_lflag = 0x1234_5678;
    device.attrs.vtime = 200;
    session.original(&mut device);
    assert_eq!(captured, device.attrs);
}

#[test]
fn restore_without_enter_raw_is_a_no_op() {
    let captured = sample_attrs();
    let mut device = Device { attrs: captured };
    let session = Termios::new(&device);
    session.original(&mut device);
    assert_eq!(captured, device.attrs);
}

#[test]
fn restore_twice_is_harmless() {
    let captured = sample_attrs();
    let mut device = Device { attrs: captured };
    let session = Termios::new(&device);
    session.raw(&mut device);
    session.original(&mut device);
    session.original(&mut device);
    assert_eq!(captured, device.attrs);
}

#[test]
fn enter_raw_applies_the_derived_set() {
    let mut device = Device { attrs: sample_attrs() };
    let session = Termios::new(&device);
    session.raw(&mut device);
    assert_eq!(raw(sample_attrs()), device.attrs);
}
