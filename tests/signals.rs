use hdl::{Operand, Signal};

#[test]
fn declaration_uses_width_minus_one() {
    assert_eq!(Signal::new("a", 32).def(), "logic [31:0] a");
    assert_eq!(Signal::new("flag", 1).def(), "logic [0:0] flag");
    assert_eq!(Signal::new("w", 10).def(), "logic [9:0] w");
    assert_eq!(Signal::new("big", u32::MAX).def(), "logic [4294967294:0] big");
    assert_eq!(Signal::bool("clk").def(), "logic [0:0] clk");
}

#[test]
fn operand_is_bare_name() {
    let s = Signal::new("data_in", 8);
    assert_eq!(s.repr(), "data_in");
    assert_eq!(s.name(), "data_in");
    assert_eq!(s.width(), 8);
}

#[test]
fn copy_and_clone_keep_name_and_width() {
    let s = Signal::new("q", 5);
    let c = s.copy();
    let d = s.clone();
    assert_eq!(c.name(), "q");
    assert_eq!(c.width(), 5);
    assert_eq!(d.def(), "logic [4:0] q");
}

#[test]
fn try_new_refuses_empty_name() {
    assert!(Signal::try_new("", 4).is_none());
}

#[test]
fn try_new_refuses_zero_width() {
    assert!(Signal::try_new("a", 0).is_none());
}

#[test]
fn try_new_name_capacity_is_64_bytes() {
    let max = "n".repeat(64);
    let s = Signal::try_new(&max, 2).expect("64 bytes fit");
    assert_eq!(s.name(), max.as_str());
    assert!(Signal::try_new(&"n".repeat(65), 2).is_none());
}

#[test]
fn try_new_counts_bytes_not_characters() {
    // each character takes two bytes of UTF-8
    let fits = "é".repeat(32);
    let too_long = "é".repeat(33);
    assert_eq!(Signal::try_new(&fits, 1).expect("64 bytes fit").name(), fits.as_str());
    assert!(Signal::try_new(&too_long, 1).is_none());
}
