use vstd::prelude::*;
use vstd::utf8::{encode_utf8, encode_utf8_decode_utf8};
use vstd::arithmetic::div_mod::lemma_fundamental_div_mod;
use crate::connection::p256;
use crate::command::{DescriptorModel, DeviceListModel, RequestModel, DeviceConfigModel, ConfigPair};

verus! {

// ---------------------------------------------------------------------------
// The byte layout of commands on the wire
//
// Integers are written little-endian in their full width; a length is written
// as eight bytes; a string is its length in bytes followed by its UTF-8
// bytes; a sequence is its number of items followed by the items; a struct or
// a pair is its fields one after another.
// ---------------------------------------------------------------------------

/// The last `k` base-256 digits of `n`, least significant first.
pub open spec fn le_bytes(n: nat, k: nat) -> Seq<u8>
    decreases k,
{
    if k == 0 {
        seq![]
    } else {
        seq![(n % 256) as u8] + le_bytes(n / 256, (k - 1) as nat)
    }
}

/// A length, as eight bytes.
pub open spec fn enc_len(n: nat) -> Seq<u8> {
    le_bytes(n, 8)
}

/// A string: its length in bytes, then its UTF-8 bytes.
pub open spec fn enc_str(s: Seq<char>) -> Seq<u8> {
    enc_len(encode_utf8(s).len()) + encode_utf8(s)
}

/// A byte vector: its length, then its bytes.
pub open spec fn enc_bytes(b: Seq<u8>) -> Seq<u8> {
    enc_len(b.len()) + b
}

/// Strings one after another, without their number.
pub open spec fn enc_str_items(v: Seq<Seq<char>>) -> Seq<u8>
    decreases v.len(),
{
    if v.len() == 0 {
        seq![]
    } else {
        enc_str(v[0]) + enc_str_items(v.drop_first())
    }
}

/// A vector of strings: their number, then the strings.
pub open spec fn enc_strs(v: Seq<Seq<char>>) -> Seq<u8> {
    enc_len(v.len()) + enc_str_items(v)
}

/// A pair of string vectors: the first, then the second.
pub open spec fn enc_pair(p: ConfigPair) -> Seq<u8> {
    enc_strs(p.0) + enc_strs(p.1)
}

/// Pairs one after another, without their number.
pub open spec fn enc_pair_items(v: Seq<ConfigPair>) -> Seq<u8>
    decreases v.len(),
{
    if v.len() == 0 {
        seq![]
    } else {
        enc_pair(v[0]) + enc_pair_items(v.drop_first())
    }
}

/// A vector of pairs: their number, then the pairs.
pub open spec fn enc_pairs(v: Seq<ConfigPair>) -> Seq<u8> {
    enc_len(v.len()) + enc_pair_items(v)
}

/// The bytes of a driver configuration descriptor.
pub open spec fn encode_descriptor(d: DescriptorModel) -> Seq<u8> {
    seq![d.id] + (le_bytes(d.vid as nat, 2) + (le_bytes(d.pid as nat, 2) + (enc_str(d.device_name)
        + (enc_bytes(d.device_icon) + (seq![d.mode_count] + (seq![d.shift_mode_count] + enc_strs(
        d.button_names,
    )))))))
}

/// The bytes of a device list.
pub open spec fn encode_device_list(d: DeviceListModel) -> Seq<u8> {
    seq![d.id] + enc_strs(d.serial_numbers)
}

/// The bytes of a device configuration request.
pub open spec fn encode_request(d: RequestModel) -> Seq<u8> {
    seq![d.id] + enc_str(d.serial_number)
}

/// The bytes of a device configuration.
pub open spec fn encode_device_config(d: DeviceConfigModel) -> Seq<u8> {
    seq![d.id] + (enc_str(d.serial_number) + enc_pairs(d.config))
}

/// What a byte string reads as: the descriptor whose bytes begin it, if any.
pub open spec fn decode_descriptor(data: Seq<u8>) -> Option<DescriptorModel> {
    if exists|d: DescriptorModel| #[trigger] encode_descriptor(d).is_prefix_of(data) {
        Some(choose|d: DescriptorModel| #[trigger] encode_descriptor(d).is_prefix_of(data))
    } else {
        None
    }
}

/// What a byte string reads as: the device list whose bytes begin it, if any.
pub open spec fn decode_device_list(data: Seq<u8>) -> Option<DeviceListModel> {
    if exists|d: DeviceListModel| #[trigger] encode_device_list(d).is_prefix_of(data) {
        Some(choose|d: DeviceListModel| #[trigger] encode_device_list(d).is_prefix_of(data))
    } else {
        None
    }
}

/// What a byte string reads as: the request whose bytes begin it, if any.
pub open spec fn decode_request(data: Seq<u8>) -> Option<RequestModel> {
    if exists|d: RequestModel| #[trigger] encode_request(d).is_prefix_of(data) {
        Some(choose|d: RequestModel| #[trigger] encode_request(d).is_prefix_of(data))
    } else {
        None
    }
}

/// What a byte string reads as: the device configuration whose bytes begin it,
/// if any.
pub open spec fn decode_device_config(data: Seq<u8>) -> Option<DeviceConfigModel> {
    if exists|d: DeviceConfigModel| #[trigger] encode_device_config(d).is_prefix_of(data) {
        Some(choose|d: DeviceConfigModel| #[trigger] encode_device_config(d).is_prefix_of(data))
    } else {
        None
    }
}

// ---------------------------------------------------------------------------
// Each layout can be read back in one way only
// ---------------------------------------------------------------------------

proof fn lemma_cat_eq(x1: Seq<u8>, r1: Seq<u8>, x2: Seq<u8>, r2: Seq<u8>)
    requires
        x1 + r1 == x2 + r2,
        x1.len() == x2.len(),
    ensures
        x1 == x2,
        r1 == r2,
{
    assert(x1 =~= (x1 + r1).subrange(0, x1.len() as int));
    assert(x2 =~= (x2 + r2).subrange(0, x2.len() as int));
    assert(r1 =~= (x1 + r1).subrange(x1.len() as int, (x1 + r1).len() as int));
    assert(r2 =~= (x2 + r2).subrange(x2.len() as int, (x2 + r2).len() as int));
}

proof fn lemma_assoc(a: Seq<u8>, b: Seq<u8>, c: Seq<u8>)
    ensures
        (a + b) + c == a + (b + c),
{
    assert((a + b) + c =~= a + (b + c));
}

pub(crate) proof fn lemma_le_len(n: nat, k: nat)
    ensures
        le_bytes(n, k).len() == k,
    decreases k,
{
    if k > 0 {
        lemma_le_len(n / 256, (k - 1) as nat);
    }
}

proof fn lemma_le_inj(a: nat, b: nat, k: nat)
    requires
        a < p256(k),
        b < p256(k),
        le_bytes(a, k) == le_bytes(b, k),
    ensures
        a == b,
    decreases k,
{
    if k == 0 {
    } else {
        let p = p256((k - 1) as nat);
        lemma_le_len(a / 256, (k - 1) as nat);
        lemma_le_len(b / 256, (k - 1) as nat);
        lemma_cat_eq(
            seq![(a % 256) as u8],
            le_bytes(a / 256, (k - 1) as nat),
            seq![(b % 256) as u8],
            le_bytes(b / 256, (k - 1) as nat),
        );
        assert(seq![(a % 256) as u8][0] == seq![(b % 256) as u8][0]);
        assert(a % 256 == b % 256);
        lemma_fundamental_div_mod(a as int, 256);
        lemma_fundamental_div_mod(b as int, 256);
        assert(a / 256 < p) by (nonlinear_arith)
            requires
                a < 256 * p,
                a == 256 * (a / 256) + a % 256,
                a % 256 >= 0,
        ;
        assert(b / 256 < p) by (nonlinear_arith)
            requires
                b < 256 * p,
                b == 256 * (b / 256) + b % 256,
                b % 256 >= 0,
        ;
        lemma_le_inj(a / 256, b / 256, (k - 1) as nat);
    }
}

proof fn lemma_p256_values()
    ensures
        p256(1) == 256,
        p256(2) == 65536,
        p256(8) == 0x1_0000_0000_0000_0000,
{
    reveal_with_fuel(p256, 9);
}

/// A fixed-width field and what follows it are read back as written.
proof fn lemma_peel_fixed(a: nat, b: nat, k: nat, r1: Seq<u8>, r2: Seq<u8>)
    requires
        a < p256(k),
        b < p256(k),
        le_bytes(a, k) + r1 == le_bytes(b, k) + r2,
    ensures
        a == b,
        r1 == r2,
{
    lemma_le_len(a, k);
    lemma_le_len(b, k);
    lemma_cat_eq(le_bytes(a, k), r1, le_bytes(b, k), r2);
    lemma_le_inj(a, b, k);
}

proof fn lemma_peel_byte(a: u8, b: u8, r1: Seq<u8>, r2: Seq<u8>)
    requires
        seq![a] + r1 == seq![b] + r2,
    ensures
        a == b,
        r1 == r2,
{
    lemma_cat_eq(seq![a], r1, seq![b], r2);
    assert(seq![a][0] == seq![b][0]);
}

/// A length-prefixed block and what follows it are read back as written.
proof fn lemma_peel_block(x1: Seq<u8>, r1: Seq<u8>, x2: Seq<u8>, r2: Seq<u8>)
    requires
        enc_len(x1.len()) + x1 + r1 == enc_len(x2.len()) + x2 + r2,
        (enc_len(x1.len()) + x1 + r1).len() <= u64::MAX,
    ensures
        x1 == x2,
        r1 == r2,
{
    lemma_p256_values();
    lemma_le_len(x1.len(), 8);
    lemma_le_len(x2.len(), 8);
    lemma_assoc(enc_len(x1.len()), x1, r1);
    lemma_assoc(enc_len(x2.len()), x2, r2);
    lemma_peel_fixed(x1.len(), x2.len(), 8, x1 + r1, x2 + r2);
    lemma_cat_eq(x1, r1, x2, r2);
}

proof fn lemma_peel_str(s1: Seq<char>, r1: Seq<u8>, s2: Seq<char>, r2: Seq<u8>)
    requires
        enc_str(s1) + r1 == enc_str(s2) + r2,
        (enc_str(s1) + r1).len() <= u64::MAX,
    ensures
        s1 == s2,
        r1 == r2,
{
    lemma_peel_block(encode_utf8(s1), r1, encode_utf8(s2), r2);
    encode_utf8_decode_utf8(s1);
    encode_utf8_decode_utf8(s2);
}

proof fn lemma_str_items_len(v: Seq<Seq<char>>)
    ensures
        enc_str_items(v).len() >= 8 * v.len(),
    decreases v.len(),
{
    if v.len() > 0 {
        lemma_str_items_len(v.drop_first());
        lemma_le_len(encode_utf8(v[0]).len(), 8);
    }
}

proof fn lemma_peel_str_items(v1: Seq<Seq<char>>, r1: Seq<u8>, v2: Seq<Seq<char>>, r2: Seq<u8>)
    requires
        v1.len() == v2.len(),
        enc_str_items(v1) + r1 == enc_str_items(v2) + r2,
        (enc_str_items(v1) + r1).len() <= u64::MAX,
    ensures
        v1 == v2,
        r1 == r2,
    decreases v1.len(),
{
    if v1.len() == 0 {
        assert(enc_str_items(v1) =~= Seq::<u8>::empty());
        assert(enc_str_items(v2) =~= Seq::<u8>::empty());
        assert(Seq::<u8>::empty() + r1 =~= r1);
        assert(Seq::<u8>::empty() + r2 =~= r2);
        assert(v1 =~= v2);
    } else {
        let t1 = enc_str_items(v1.drop_first());
        let t2 = enc_str_items(v2.drop_first());
        lemma_assoc(enc_str(v1[0]), t1, r1);
        lemma_assoc(enc_str(v2[0]), t2, r2);
        lemma_peel_str(v1[0], t1 + r1, v2[0], t2 + r2);
        lemma_peel_str_items(v1.drop_first(), r1, v2.drop_first(), r2);
        assert(v1 =~= seq![v1[0]] + v1.drop_first());
        assert(v2 =~= seq![v2[0]] + v2.drop_first());
    }
}

proof fn lemma_peel_strs(v1: Seq<Seq<char>>, r1: Seq<u8>, v2: Seq<Seq<char>>, r2: Seq<u8>)
    requires
        enc_strs(v1) + r1 == enc_strs(v2) + r2,
        (enc_strs(v1) + r1).len() <= u64::MAX,
    ensures
        v1 == v2,
        r1 == r2,
{
    lemma_p256_values();
    lemma_str_items_len(v1);
    lemma_str_items_len(v2);
    lemma_le_len(v1.len(), 8);
    lemma_le_len(v2.len(), 8);
    lemma_assoc(enc_len(v1.len()), enc_str_items(v1), r1);
    lemma_assoc(enc_len(v2.len()), enc_str_items(v2), r2);
    lemma_peel_fixed(v1.len(), v2.len(), 8, enc_str_items(v1) + r1, enc_str_items(v2) + r2);
    lemma_peel_str_items(v1, r1, v2, r2);
}

proof fn lemma_peel_pair(p1: ConfigPair, r1: Seq<u8>, p2: ConfigPair, r2: Seq<u8>)
    requires
        enc_pair(p1) + r1 == enc_pair(p2) + r2,
        (enc_pair(p1) + r1).len() <= u64::MAX,
    ensures
        p1 == p2,
        r1 == r2,
{
    lemma_assoc(enc_strs(p1.0), enc_strs(p1.1), r1);
    lemma_assoc(enc_strs(p2.0), enc_strs(p2.1), r2);
    lemma_peel_strs(p1.0, enc_strs(p1.1) + r1, p2.0, enc_strs(p2.1) + r2);
    lemma_peel_strs(p1.1, r1, p2.1, r2);
}

proof fn lemma_pair_items_len(v: Seq<ConfigPair>)
    ensures
        enc_pair_items(v).len() >= 16 * v.len(),
    decreases v.len(),
{
    if v.len() > 0 {
        lemma_pair_items_len(v.drop_first());
        lemma_le_len(v[0].0.len(), 8);
        lemma_le_len(v[0].1.len(), 8);
    }
}

proof fn lemma_peel_pair_items(v1: Seq<ConfigPair>, r1: Seq<u8>, v2: Seq<ConfigPair>, r2: Seq<u8>)
    requires
        v1.len() == v2.len(),
        enc_pair_items(v1) + r1 == enc_pair_items(v2) + r2,
        (enc_pair_items(v1) + r1).len() <= u64::MAX,
    ensures
        v1 == v2,
        r1 == r2,
    decreases v1.len(),
{
    if v1.len() == 0 {
        assert(enc_pair_items(v1) =~= Seq::<u8>::empty());
        assert(enc_pair_items(v2) =~= Seq::<u8>::empty());
        assert(Seq::<u8>::empty() + r1 =~= r1);
        assert(Seq::<u8>::empty() + r2 =~= r2);
        assert(v1 =~= v2);
    } else {
        let t1 = enc_pair_items(v1.drop_first());
        let t2 = enc_pair_items(v2.drop_first());
        lemma_assoc(enc_pair(v1[0]), t1, r1);
        lemma_assoc(enc_pair(v2[0]), t2, r2);
        lemma_peel_pair(v1[0], t1 + r1, v2[0], t2 + r2);
        lemma_peel_pair_items(v1.drop_first(), r1, v2.drop_first(), r2);
        assert(v1 =~= seq![v1[0]] + v1.drop_first());
        assert(v2 =~= seq![v2[0]] + v2.drop_first());
    }
}

proof fn lemma_peel_pairs(v1: Seq<ConfigPair>, r1: Seq<u8>, v2: Seq<ConfigPair>, r2: Seq<u8>)
    requires
        enc_pairs(v1) + r1 == enc_pairs(v2) + r2,
        (enc_pairs(v1) + r1).len() <= u64::MAX,
    ensures
        v1 == v2,
        r1 == r2,
{
    lemma_p256_values();
    lemma_pair_items_len(v1);
    lemma_pair_items_len(v2);
    lemma_le_len(v1.len(), 8);
    lemma_le_len(v2.len(), 8);
    lemma_assoc(enc_len(v1.len()), enc_pair_items(v1), r1);
    lemma_assoc(enc_len(v2.len()), enc_pair_items(v2), r2);
    lemma_peel_fixed(v1.len(), v2.len(), 8, enc_pair_items(v1) + r1, enc_pair_items(v2) + r2);
    lemma_peel_pair_items(v1, r1, v2, r2);
}

proof fn lemma_split_prefix(x: Seq<u8>, data: Seq<u8>) -> (r: Seq<u8>)
    requires
        x.is_prefix_of(data),
    ensures
        x + r == data,
        (x + r).len() == data.len(),
{
    let r = data.subrange(x.len() as int, data.len() as int);
    assert(x + r =~= data);
    r
}

/// Two descriptors whose bytes both begin a byte string of at most
/// `u64::MAX` bytes are the same descriptor.
pub proof fn lemma_descriptor_unique(a: DescriptorModel, b: DescriptorModel, data: Seq<u8>)
    requires
        encode_descriptor(a).is_prefix_of(data),
        encode_descriptor(b).is_prefix_of(data),
        data.len() <= u64::MAX,
    ensures
        a == b,
{
    lemma_p256_values();
    let r1 = lemma_split_prefix(encode_descriptor(a), data);
    let r2 = lemma_split_prefix(encode_descriptor(b), data);
    // id
    let x1 = le_bytes(a.vid as nat, 2) + (le_bytes(a.pid as nat, 2) + (enc_str(a.device_name) + (
    enc_bytes(a.device_icon) + (seq![a.mode_count] + (seq![a.shift_mode_count] + enc_strs(
        a.button_names,
    ))))));
    let x2 = le_bytes(b.vid as nat, 2) + (le_bytes(b.pid as nat, 2) + (enc_str(b.device_name) + (
    enc_bytes(b.device_icon) + (seq![b.mode_count] + (seq![b.shift_mode_count] + enc_strs(
        b.button_names,
    ))))));
    assert(seq![a.id] + x1 + r1 =~= seq![a.id] + (x1 + r1));
    assert(seq![b.id] + x2 + r2 =~= seq![b.id] + (x2 + r2));
    lemma_peel_byte(a.id, b.id, x1 + r1, x2 + r2);
    // vid
    let y1 = le_bytes(a.pid as nat, 2) + (enc_str(a.device_name) + (enc_bytes(a.device_icon) + (
    seq![a.mode_count] + (seq![a.shift_mode_count] + enc_strs(a.button_names)))));
    let y2 = le_bytes(b.pid as nat, 2) + (enc_str(b.device_name) + (enc_bytes(b.device_icon) + (
    seq![b.mode_count] + (seq![b.shift_mode_count] + enc_strs(b.button_names)))));
    lemma_assoc(le_bytes(a.vid as nat, 2), y1, r1);
    lemma_assoc(le_bytes(b.vid as nat, 2), y2, r2);
    lemma_peel_fixed(a.vid as nat, b.vid as nat, 2, y1 + r1, y2 + r2);
    // pid
    let z1 = enc_str(a.device_name) + (enc_bytes(a.device_icon) + (seq![a.mode_count] + (
    seq![a.shift_mode_count] + enc_strs(a.button_names))));
    let z2 = enc_str(b.device_name) + (enc_bytes(b.device_icon) + (seq![b.mode_count] + (
    seq![b.shift_mode_count] + enc_strs(b.button_names))));
    lemma_assoc(le_bytes(a.pid as nat, 2), z1, r1);
    lemma_assoc(le_bytes(b.pid as nat, 2), z2, r2);
    lemma_peel_fixed(a.pid as nat, b.pid as nat, 2, z1 + r1, z2 + r2);
    // device name
    let w1 = enc_bytes(a.device_icon) + (seq![a.mode_count] + (seq![a.shift_mode_count] + enc_strs(
        a.button_names,
    )));
    let w2 = enc_bytes(b.device_icon) + (seq![b.mode_count] + (seq![b.shift_mode_count] + enc_strs(
        b.button_names,
    )));
    lemma_assoc(enc_str(a.device_name), w1, r1);
    lemma_assoc(enc_str(b.device_name), w2, r2);
    lemma_peel_str(a.device_name, w1 + r1, b.device_name, w2 + r2);
    // device icon
    let u1 = seq![a.mode_count] + (seq![a.shift_mode_count] + enc_strs(a.button_names));
    let u2 = seq![b.mode_count] + (seq![b.shift_mode_count] + enc_strs(b.button_names));
    lemma_assoc(enc_bytes(a.device_icon), u1, r1);
    lemma_assoc(enc_bytes(b.device_icon), u2, r2);
    lemma_assoc(enc_len(a.device_icon.len()), a.device_icon, u1 + r1);
    lemma_assoc(enc_len(b.device_icon.len()), b.device_icon, u2 + r2);
    lemma_peel_block(a.device_icon, u1 + r1, b.device_icon, u2 + r2);
    // mode counts
    let v1 = seq![a.shift_mode_count] + enc_strs(a.button_names);
    let v2 = seq![b.shift_mode_count] + enc_strs(b.button_names);
    lemma_assoc(seq![a.mode_count], v1, r1);
    lemma_assoc(seq![b.mode_count], v2, r2);
    lemma_peel_byte(a.mode_count, b.mode_count, v1 + r1, v2 + r2);
    lemma_assoc(seq![a.shift_mode_count], enc_strs(a.button_names), r1);
    lemma_assoc(seq![b.shift_mode_count], enc_strs(b.button_names), r2);
    lemma_peel_byte(
        a.shift_mode_count,
        b.shift_mode_count,
        enc_strs(a.button_names) + r1,
        enc_strs(b.button_names) + r2,
    );
    // button names
    lemma_peel_strs(a.button_names, r1, b.button_names, r2);
}

/// Two device lists whose bytes both begin a byte string of at most
/// `u64::MAX` bytes are the same list.
pub proof fn lemma_device_list_unique(a: DeviceListModel, b: DeviceListModel, data: Seq<u8>)
    requires
        encode_device_list(a).is_prefix_of(data),
        encode_device_list(b).is_prefix_of(data),
        data.len() <= u64::MAX,
    ensures
        a == b,
{
    let r1 = lemma_split_prefix(encode_device_list(a), data);
    let r2 = lemma_split_prefix(encode_device_list(b), data);
    lemma_assoc(seq![a.id], enc_strs(a.serial_numbers), r1);
    lemma_assoc(seq![b.id], enc_strs(b.serial_numbers), r2);
    lemma_peel_byte(a.id, b.id, enc_strs(a.serial_numbers) + r1, enc_strs(b.serial_numbers) + r2);
    lemma_peel_strs(a.serial_numbers, r1, b.serial_numbers, r2);
}

/// Two requests whose bytes both begin a byte string of at most `u64::MAX`
/// bytes are the same request.
pub proof fn lemma_request_unique(a: RequestModel, b: RequestModel, data: Seq<u8>)
    requires
        encode_request(a).is_prefix_of(data),
        encode_request(b).is_prefix_of(data),
        data.len() <= u64::MAX,
    ensures
        a == b,
{
    let r1 = lemma_split_prefix(encode_request(a), data);
    let r2 = lemma_split_prefix(encode_request(b), data);
    lemma_assoc(seq![a.id], enc_str(a.serial_number), r1);
    lemma_assoc(seq![b.id], enc_str(b.serial_number), r2);
    lemma_peel_byte(a.id, b.id, enc_str(a.serial_number) + r1, enc_str(b.serial_number) + r2);
    lemma_peel_str(a.serial_number, r1, b.serial_number, r2);
}

/// Two device configurations whose bytes both begin a byte string of at most
/// `u64::MAX` bytes are the same configuration.
pub proof fn lemma_device_config_unique(a: DeviceConfigModel, b: DeviceConfigModel, data: Seq<u8>)
    requires
        encode_device_config(a).is_prefix_of(data),
        encode_device_config(b).is_prefix_of(data),
        data.len() <= u64::MAX,
    ensures
        a == b,
{
    let r1 = lemma_split_prefix(encode_device_config(a), data);
    let r2 = lemma_split_prefix(encode_device_config(b), data);
    let x1 = enc_str(a.serial_number) + enc_pairs(a.config);
    let x2 = enc_str(b.serial_number) + enc_pairs(b.config);
    lemma_assoc(seq![a.id], x1, r1);
    lemma_assoc(seq![b.id], x2, r2);
    lemma_peel_byte(a.id, b.id, x1 + r1, x2 + r2);
    lemma_assoc(enc_str(a.serial_number), enc_pairs(a.config), r1);
    lemma_assoc(enc_str(b.serial_number), enc_pairs(b.config), r2);
    lemma_peel_str(a.serial_number, enc_pairs(a.config) + r1, b.serial_number, enc_pairs(b.config) + r2);
    lemma_peel_pairs(a.config, r1, b.config, r2);
}

} // verus!
