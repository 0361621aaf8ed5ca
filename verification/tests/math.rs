use orchestrator::utils::math::{
    be_arr_as_be_u32, generate_right_bitmask, increment_at_bit_index, log2_ceil, pow2_u64,
    u32_as_be_arr,
};
use orchestrator::utils::text::{chars_of, decimal_string, string_of};
use orchestrator::utils::types::{CidrIP, Ipv4Address};

#[test]
fn log2_ceil_is_the_least_exponent_that_reaches() {
    assert_eq!(log2_ceil(1), 0);
    assert_eq!(log2_ceil(2), 1);
    assert_eq!(log2_ceil(3), 2);
    assert_eq!(log2_ceil(16), 4);
    assert_eq!(log2_ceil(17), 5);
    assert_eq!(log2_ceil(18), 5);
    assert_eq!(log2_ceil(32), 5);
    assert_eq!(log2_ceil(33), 6);
    assert_eq!(log2_ceil(i32::MAX), 31);
}

#[test]
fn bit_helpers() {
    assert_eq!(generate_right_bitmask(0), 0);
    assert_eq!(generate_right_bitmask(5), 0b11111);
    assert_eq!(generate_right_bitmask(32), u32::MAX);
    assert_eq!(generate_right_bitmask(40), u32::MAX);
    assert_eq!(increment_at_bit_index(0b1000, 1), 0b1010);
    assert_eq!(increment_at_bit_index(7, 31), 0x8000_0007);
    assert_eq!(pow2_u64(0), 1);
    assert_eq!(pow2_u64(63), 1 << 63);
}

#[test]
fn bytes_are_read_in_network_order() {
    assert_eq!(be_arr_as_be_u32([10, 1, 0, 0]), 0x0A01_0000);
    assert_eq!(u32_as_be_arr(0x0A01_0203), [10, 1, 2, 3]);
    assert_eq!(u32_as_be_arr(be_arr_as_be_u32([255, 0, 128, 7])), [255, 0, 128, 7]);
}

#[test]
fn addresses_and_prefixes_print_as_numerals() {
    assert_eq!(Ipv4Address::new(10, 0, 255, 5).to_string(), "10.0.255.5");
    assert_eq!(Ipv4Address { value: 0 }.to_string(), "0.0.0.0");
    assert_eq!(Ipv4Address { value: u32::MAX }.to_string(), "255.255.255.255");
    assert_eq!(Ipv4Address::new(192, 168, 1, 20).octets(), [192, 168, 1, 20]);
    let cidr = CidrIP { ip: Ipv4Address::new(10, 0, 0, 0), netmask: 8 };
    assert_eq!(cidr.to_string(), "10.0.0.0/8");
}

#[test]
fn numerals_and_characters() {
    assert_eq!(decimal_string(0), "0");
    assert_eq!(decimal_string(7), "7");
    assert_eq!(decimal_string(1203), "1203");
    assert_eq!(decimal_string(u64::MAX), "18446744073709551615");
    assert_eq!(chars_of("a¥{b}"), vec!['a', '¥', '{', 'b', '}']);
    assert_eq!(string_of(&vec!['¥', 'x']), "¥x");
}
