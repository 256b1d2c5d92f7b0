//! A minimal LE peripheral spoken directly over a raw HCI channel: the
//! packets it sends, the packets it recognises, and the decisions it takes
//! while a central connects, pairs (LE legacy pairing, Just Works) and
//! starts encryption.
//!
//! The socket is driven from outside: the setup commands come from
//! `setup_steps`, and every buffer read from the controller goes through
//! `Parrot::on_read`, which says what to write back.
use vstd::prelude::*;
use crate::c1::{c1_rev, s1_rev, spec_c1_rev, spec_s1_rev};
use crate::packer::{slices_equal, zeros};
use crate::packets::le16;
use crate::hci_core::opcode_bytes;

verus! {

// --- Packet bytes ---

/// HCI Reset.
pub open spec fn reset_bytes() -> Seq<u8> {
    seq![0x01u8, 0x03, 0x0C, 0x00]
}

/// LE Set Event Mask.
pub open spec fn le_event_mask_bytes() -> Seq<u8> {
    seq![0x01u8, 0x01, 0x20, 0x08, 0xff, 0x05, 0x00, 0x00, 0x00, 0x00, 0x00, 0x00]
}

/// Write Scan Enable (inquiry and page scan).
pub open spec fn write_scan_enabled_bytes() -> Seq<u8> {
    seq![0x01u8, 0x1A, 0x0C, 0x01, 0x03]
}

/// Write Connection Accept Timeout.
pub open spec fn write_connection_accept_timeout_bytes() -> Seq<u8> {
    seq![0x01u8, 0x16, 0x0C, 0x02, 0xA0, 0x3F]
}

/// Write Page Timeout.
pub open spec fn write_page_timeout_bytes() -> Seq<u8> {
    seq![0x01u8, 0x18, 0x0C, 0x02, 0x00, 0x40]
}

/// Read Local Supported Commands.
pub open spec fn read_local_supported_commands_bytes() -> Seq<u8> {
    seq![0x01u8, 0x02, 0x10, 0x00]
}

/// Read BD_ADDR.
pub open spec fn read_bd_addr_bytes() -> Seq<u8> {
    seq![0x01u8, 0x09, 0x10, 0x00]
}

/// LE Read Buffer Size.
pub open spec fn read_buffer_size_bytes() -> Seq<u8> {
    seq![0x01u8, 0x02, 0x20, 0x00]
}

/// Change Local Name to "My Pi", padded with zeros to 248 bytes.
pub open spec fn change_local_name_bytes() -> Seq<u8> {
    seq![0x01u8, 0x13, 0x0C, 0xF8, 0x4D, 0x79, 0x20, 0x50, 0x69] + zeros(243)
}

/// LE Set Random Address.
pub open spec fn le_set_random_address_bytes(addr: Seq<u8>) -> Seq<u8> {
    seq![0x01u8, 0x05, 0x20, 0x06] + addr
}

/// LE Set Advertising Parameters.
pub open spec fn le_set_advertising_parameters_bytes() -> Seq<u8> {
    seq![
        0x01u8, 0x06, 0x20, 0x0f, 0x00, 0x02, 0x00, 0x02, 0x00, 0x01, 0x00, 0x00, 0x00, 0x00, 0x00,
        0x00, 0x00, 0x07, 0x00,
    ]
}

/// LE Set Advertising Data: flags, appearance (keyboard), name "HID",
/// service 0x1812.
pub open spec fn le_set_advertising_data_bytes() -> Seq<u8> {
    seq![
        0x1u8, 0x8, 0x20, 0x20, 0x10, 0x2, 0x1, 0x6, 0x3, 0x19, 0xc1, 0x3, 0x4, 0x8, 0x48, 0x49,
        0x44, 0x3, 0x2, 0x12, 0x18,
    ] + zeros(15)
}

/// LE Set Advertising Enable.
pub open spec fn le_set_advertising_enable_bytes() -> Seq<u8> {
    seq![0x01u8, 0x0A, 0x20, 0x01, 0x01]
}

/// LE Read Local P-256 Public Key.
pub open spec fn le_read_local_p256_public_key_bytes() -> Seq<u8> {
    seq![0x01u8, 0x25, 0x20, 0x00]
}

/// SMP Encryption Information carrying the long term key.
pub open spec fn encryption_information_bytes(conhandle: Seq<u8>, ltk: Seq<u8>) -> Seq<u8> {
    seq![0x2u8, conhandle[0], 0x0, 0x15, 0x0, 0x11, 0x0, 0x6, 0x0, 0x6] + ltk
}

/// SMP Central Identification with encrypted diversifier 0x0200.
pub open spec fn central_identification_bytes(conhandle: Seq<u8>, random: Seq<u8>) -> Seq<u8> {
    seq![0x2u8, conhandle[0], 0x0, 0xf, 0x0, 0xb, 0x0, 0x6, 0x0, 0x7, 0x0, 0x2] + random
}

/// LE Long Term Key Request Reply.
pub open spec fn long_term_key_request_reply_bytes(conhandle: Seq<u8>, key: Seq<u8>) -> Seq<u8> {
    seq![0x1u8, 0x1a, 0x20, 0x12, conhandle[0], conhandle[1]] + key
}

/// ATT Exchange MTU Request (client MTU 244).
pub open spec fn mtu_request_bytes(conhandle: Seq<u8>) -> Seq<u8> {
    seq![0x2u8, conhandle[0], conhandle[1], 0x7, 0x0, 0x3, 0x0, 0x4, 0x0, 0x2, 0xf4, 0x0]
}

/// ATT Exchange MTU Response (server MTU 247).
pub open spec fn mtu_response_bytes(conhandle: Seq<u8>) -> Seq<u8> {
    seq![0x2u8, conhandle[0], conhandle[1], 0x7, 0x0, 0x3, 0x0, 0x4, 0x0, 0x3, 0xf7, 0x0]
}

/// ATT Error Response to a Find By Type Value Request: attribute not found.
pub open spec fn attribute_not_found_bytes(conhandle: Seq<u8>) -> Seq<u8> {
    seq![0x2u8, conhandle[0], 0x0, 0x9, 0x0, 0x5, 0x0, 0x4, 0x0, 0x1, 0x6, 0x1, 0x0, 0xa]
}

/// ATT Read By Group Type Response with one group.
pub open spec fn read_by_group_type_response_bytes(
    conhandle: Seq<u8>,
    atthandle: Seq<u8>,
    grpendhandle: Seq<u8>,
    uuid: Seq<u8>,
) -> Seq<u8> {
    seq![0x2u8, conhandle[0], 0x0, 0xc, 0x0, 0x8, 0x0, 0x4, 0x0, 0x11, 0x6] + atthandle + grpendhandle
        + uuid
}

/// SMP Pairing Response: no input no output, no OOB data, bonding, key size
/// 16, no initiator keys, responder distributes the encryption key.
pub open spec fn pairing_response_bytes(conhandle: Seq<u8>) -> Seq<u8> {
    seq![
        0x02u8, conhandle[0], conhandle[1], 0x0b, 0x00, 0x07, 0x00, 0x06, 0x00, 0x02, 0x03, 0x00,
        0x01, 0x10, 0x00, 0x01,
    ]
}

/// SMP Pairing Confirm.
pub open spec fn pairing_confirm_bytes(conhandle: Seq<u8>, confirm_value: Seq<u8>) -> Seq<u8> {
    seq![0x2u8, conhandle[0], 0x0, 0x15, 0x0, 0x11, 0x0, 0x6, 0x0, 0x3] + confirm_value
}

/// SMP Pairing Random.
pub open spec fn pairing_random_bytes(conhandle: Seq<u8>, random: Seq<u8>) -> Seq<u8> {
    seq![0x2u8, conhandle[0], 0x0, 0x15, 0x00, 0x11, 0x00, 0x06, 0x00, 0x04] + random
}

/// SMP Pairing Failed: confirm value failed.
pub open spec fn pairing_failed_confirm_value_bytes(conhandle: Seq<u8>) -> Seq<u8> {
    seq![0x2u8, conhandle[0], 0x20, 0x6, 0x0, 0x2, 0x0, 0x6, 0x0, 0x5, 0x4]
}

// --- Recognised packets ---

/// An LE Connection Complete event with success status.
pub open spec fn is_le_connection_complete(buf: Seq<u8>) -> bool {
    buf.subrange(0, 5) == seq![0x04u8, 0x3e, 0x13, 0x01, 0x00]
}

/// An LE Long Term Key Request event on the connection, with zero random
/// number and diversifier.
pub open spec fn is_le_long_term_key_request(buf: Seq<u8>, conhandle: Seq<u8>) -> bool {
    buf.subrange(0, 16) == seq![0x04u8, 0x3e, 0xd, 0x5, conhandle[0], conhandle[1]] + zeros(10)
}

/// An Encryption Change event: encryption on with AES-CCM on handle 0x0040.
pub open spec fn is_encryption_change(buf: Seq<u8>) -> bool {
    buf.subrange(0, 7) == seq![0x4u8, 0x8, 0x4, 0x0, 0x40, 0x0, 0x1]
}

/// An ATT Read By Group Type Request on the connection.
pub open spec fn is_read_by_group_type_request(buf: Seq<u8>, conhandle: Seq<u8>) -> bool {
    buf.subrange(0, 10) == seq![0x2u8, conhandle[0], 0x20, 0xb, 0x0, 0x7, 0x0, 0x4, 0x0, 0x10]
}

/// An ATT Find By Type Value Request on the connection.
pub open spec fn is_find_by_type_value_request(buf: Seq<u8>, conhandle: Seq<u8>) -> bool {
    buf.subrange(0, 10) == seq![0x2u8, conhandle[0], 0x20, 0xd, 0x0, 0x9, 0x0, 0x4, 0x0, 0x6]
}

/// An SMP Pairing Request on the connection.
pub open spec fn is_pairing_request(buf: Seq<u8>, conhandle: Seq<u8>) -> bool {
    buf.subrange(0, 10) == seq![0x02u8, conhandle[0], 0x20, 0x0b, 0x00, 0x07, 0x00, 0x06, 0x00, 0x01]
}

/// An SMP Pairing Confirm on the connection.
pub open spec fn is_pairing_confirm(buf: Seq<u8>, conhandle: Seq<u8>) -> bool {
    buf.subrange(0, 10) == seq![0x2u8, conhandle[0], 0x20, 0x15, 0x0, 0x11, 0x0, 0x6, 0x0, 0x3]
}

/// An SMP Pairing Random on the connection.
pub open spec fn is_pairing_random(buf: Seq<u8>, conhandle: Seq<u8>) -> bool {
    buf.subrange(0, 10) == seq![0x2u8, conhandle[0], 0x20, 0x15, 0x00, 0x11, 0x0, 0x6, 0x0, 0x4]
}

/// Whether `buf` starts with `pattern`.
fn starts_with(buf: &[u8], pattern: &[u8]) -> (r: bool)
    requires
        pattern@.len() <= buf@.len(),
    ensures
        r == (buf@.subrange(0, pattern@.len() as int) == pattern@),
{
    slices_equal(vstd::slice::slice_subrange(buf, 0, pattern.len()), pattern)
}

// --- Builders ---

pub fn cmd_le_event_mask() -> (r: [u8; 12])
    ensures
        r@ == le_event_mask_bytes(),
{
    let r = [0x01, 0x01, 0x20, 0x08, 0xff, 0x05, 0x00, 0x00, 0x00, 0x00, 0x00, 0x00];
    assert(r@ =~= le_event_mask_bytes());
    r
}

pub fn cmd_write_scan_enabled() -> (r: [u8; 5])
    ensures
        r@ == write_scan_enabled_bytes(),
{
    let r = [0x01, 0x1A, 0x0C, 0x01, 0x03];
    assert(r@ =~= write_scan_enabled_bytes());
    r
}

pub fn cmd_write_connection_accept_timeout() -> (r: [u8; 6])
    ensures
        r@ == write_connection_accept_timeout_bytes(),
{
    let r = [0x01, 0x16, 0x0C, 0x02, 0xA0, 0x3F];
    assert(r@ =~= write_connection_accept_timeout_bytes());
    r
}

pub fn cmd_write_page_timeout() -> (r: [u8; 6])
    ensures
        r@ == write_page_timeout_bytes(),
{
    let r = [0x01, 0x18, 0x0C, 0x02, 0x00, 0x40];
    assert(r@ =~= write_page_timeout_bytes());
    r
}

pub fn cmd_read_local_supported_commands() -> (r: [u8; 4])
    ensures
        r@ == read_local_supported_commands_bytes(),
{
    let r = [0x01, 0x02, 0x10, 0x00];
    assert(r@ =~= read_local_supported_commands_bytes());
    r
}

pub fn cmd_read_bd_addr() -> (r: [u8; 4])
    ensures
        r@ == read_bd_addr_bytes(),
{
    let r = [0x01, 0x09, 0x10, 0x00];
    assert(r@ =~= read_bd_addr_bytes());
    r
}

pub fn cmd_read_buffer_size() -> (r: [u8; 4])
    ensures
        r@ == read_buffer_size_bytes(),
{
    let r = [0x01, 0x02, 0x20, 0x00];
    assert(r@ =~= read_buffer_size_bytes());
    r
}

pub fn cmd_change_local_name() -> (r: [u8; 252])
    ensures
        r@ == change_local_name_bytes(),
{
    let mut r = [0u8; 252];
    r[0] = 0x01;
    r[1] = 0x13;
    r[2] = 0x0C;
    r[3] = 0xF8;
    r[4] = 0x4D;
    r[5] = 0x79;
    r[6] = 0x20;
    r[7] = 0x50;
    r[8] = 0x69;
    assert(r@ =~= change_local_name_bytes());
    r
}

pub fn cmd_le_set_random_address(addr: &[u8; 6]) -> (r: [u8; 10])
    ensures
        r@ == le_set_random_address_bytes(addr@),
{
    let r = [0x01, 0x05, 0x20, 0x06, addr[0], addr[1], addr[2], addr[3], addr[4], addr[5]];
    assert(r@ =~= le_set_random_address_bytes(addr@));
    r
}

pub fn cmd_le_set_advertising_parameters() -> (r: [u8; 19])
    ensures
        r@ == le_set_advertising_parameters_bytes(),
{
    let r = [
        0x01,
        0x06,
        0x20,
        0x0f,
        0x00,
        0x02,
        0x00,
        0x02,
        0x00,
        0x01,
        0x00,
        0x00,
        0x00,
        0x00,
        0x00,
        0x00,
        0x00,
        0x07,
        0x00,
    ];
    assert(r@ =~= le_set_advertising_parameters_bytes());
    r
}

pub fn cmd_le_set_advertising_data() -> (r: [u8; 36])
    ensures
        r@ == le_set_advertising_data_bytes(),
{
    let mut r = [0u8; 36];
    r[0] = 0x1;
    r[1] = 0x8;
    r[2] = 0x20;
    r[3] = 0x20;
    r[4] = 0x10;
    r[5] = 0x2;
    r[6] = 0x1;
    r[7] = 0x6;
    r[8] = 0x3;
    r[9] = 0x19;
    r[10] = 0xc1;
    r[11] = 0x3;
    r[12] = 0x4;
    r[13] = 0x8;
    r[14] = 0x48;
    r[15] = 0x49;
    r[16] = 0x44;
    r[17] = 0x3;
    r[18] = 0x2;
    r[19] = 0x12;
    r[20] = 0x18;
    assert(r@ =~= le_set_advertising_data_bytes());
    r
}

pub fn cmd_le_set_advertising_enable() -> (r: [u8; 5])
    ensures
        r@ == le_set_advertising_enable_bytes(),
{
    let r = [0x01, 0x0A, 0x20, 0x01, 0x01];
    assert(r@ =~= le_set_advertising_enable_bytes());
    r
}

pub fn cmd_le_read_local_p256_public_key() -> (r: [u8; 4])
    ensures
        r@ == le_read_local_p256_public_key_bytes(),
{
    let r = [0x01, 0x25, 0x20, 0x00];
    assert(r@ =~= le_read_local_p256_public_key_bytes());
    r
}

pub fn evt_is_le_connection_complete(buf: &[u8]) -> (r: bool)
    requires
        buf@.len() >= 5,
    ensures
        r == is_le_connection_complete(buf@),
{
    let pattern = [0x04, 0x3e, 0x13, 0x01, 0x00];
    assert(pattern@ =~= seq![0x04u8, 0x3e, 0x13, 0x01, 0x00]);
    starts_with(buf, &pattern)
}

/// LE Long Term Key Request Event
pub fn evt_is_le_long_term_key_request(buf: &[u8], conhandle: &[u8; 2]) -> (r: bool)
    requires
        buf@.len() >= 16,
    ensures
        r == is_le_long_term_key_request(buf@, conhandle@),
{
    let pattern = [
        0x04,
        0x3e,
        0xd,
        0x5,
        conhandle[0],
        conhandle[1],
        0x0,
        0x0,
        0x0,
        0x0,
        0x0,
        0x0,
        0x0,
        0x0,
        0x0,
        0x0,
    ];
    assert(pattern@ =~= seq![0x04u8, 0x3e, 0xd, 0x5, conhandle@[0], conhandle@[1]] + zeros(10));
    starts_with(buf, &pattern)
}

/// Encryption Change event
pub fn evt_is_encryption_change(buf: &[u8]) -> (r: bool)
    requires
        buf@.len() >= 7,
    ensures
        r == is_encryption_change(buf@),
{
    // Link Level Encryption is ON with AES-CCM for LE.
    let pattern = [0x4, 0x8, 0x4, 0x0, 0x40, 0x0, 0x1];
    assert(pattern@ =~= seq![0x4u8, 0x8, 0x4, 0x0, 0x40, 0x0, 0x1]);
    starts_with(buf, &pattern)
}

/// Encryption Information
pub fn smp_encryption_information(conhandle: &[u8; 2], ltk: &[u8; 16]) -> (r: [u8; 26])
    ensures
        r@ == encryption_information_bytes(conhandle@, ltk@),
{
    let r = [
        0x2,
        conhandle[0],
        0x0,
        0x15,
        0x0,
        0x11,
        0x0,
        0x6,
        0x0,
        0x6,
        ltk[0],
        ltk[1],
        ltk[2],
        ltk[3],
        ltk[4],
        ltk[5],
        ltk[6],
        ltk[7],
        ltk[8],
        ltk[9],
        ltk[10],
        ltk[11],
        ltk[12],
        ltk[13],
        ltk[14],
        ltk[15],
    ];
    assert(r@ =~= encryption_information_bytes(conhandle@, ltk@));
    r
}

/// Central Identification
pub fn smp_central_identification(conhandle: &[u8; 2], random: &[u8; 8]) -> (r: [u8; 20])
    ensures
        r@ == central_identification_bytes(conhandle@, random@),
{
    let r = [
        0x2,
        conhandle[0],
        0x0,
        0xf,
        0x0,
        0xb,
        0x0,
        0x6,
        0x0,
        0x7,
        0x0,
        0x2,  // Encrypted diversifier 0x0200
        random[0],
        random[1],
        random[2],
        random[3],
        random[4],
        random[5],
        random[6],
        random[7],
    ];
    assert(r@ =~= central_identification_bytes(conhandle@, random@));
    r
}

/// LE Long Term Key Request Reply
///
/// For Just Works key is `s1_rev([0; 16], &rrand, &irand)` where `rrand` is the
/// server (our) random value, and `irand` is the (client) initiator random
/// value
pub fn cmd_le_long_term_key_request_reply(conhandle: &[u8; 2], key: &[u8; 16]) -> (r: [u8; 22])
    ensures
        r@ == long_term_key_request_reply_bytes(conhandle@, key@),
{
    let r = [
        0x1,
        0x1a,
        0x20,
        0x12,
        conhandle[0],
        conhandle[1],
        key[0],
        key[1],
        key[2],
        key[3],
        key[4],
        key[5],
        key[6],
        key[7],
        key[8],
        key[9],
        key[10],
        key[11],
        key[12],
        key[13],
        key[14],
        key[15],
    ];
    assert(r@ =~= long_term_key_request_reply_bytes(conhandle@, key@));
    r
}

pub fn att_send_mtu_request(conhandle: &[u8; 2]) -> (r: [u8; 12])
    ensures
        r@ == mtu_request_bytes(conhandle@),
{
    let r = [0x2, conhandle[0], conhandle[1], 0x7, 0x0, 0x3, 0x0, 0x4, 0x0, 0x2, 0xf4, 0x0];
    assert(r@ =~= mtu_request_bytes(conhandle@));
    r
}

pub fn att_send_mtu_response(conhandle: &[u8; 2]) -> (r: [u8; 12])
    ensures
        r@ == mtu_response_bytes(conhandle@),
{
    let r = [0x2, conhandle[0], conhandle[1], 0x7, 0x0, 0x3, 0x0, 0x4, 0x0, 0x3, 0xf7, 0x0];
    assert(r@ =~= mtu_response_bytes(conhandle@));
    r
}

pub fn att_is_read_by_group_type_request(buf: &[u8], conhandle: &[u8; 2]) -> (r: bool)
    requires
        buf@.len() >= 10,
    ensures
        r == is_read_by_group_type_request(buf@, conhandle@),
{
    let pattern = [0x2, conhandle[0], 0x20, 0xb, 0x0, 0x7, 0x0, 0x4, 0x0, 0x10];
    assert(pattern@ =~= seq![0x2u8, conhandle@[0], 0x20, 0xb, 0x0, 0x7, 0x0, 0x4, 0x0, 0x10]);
    starts_with(buf, &pattern)
}

/// ATT_FIND_BY_TYPE_VALUE_REQ
pub fn att_is_find_by_type_value_request(buf: &[u8], conhandle: &[u8; 2]) -> (r: bool)
    requires
        buf@.len() >= 10,
    ensures
        r == is_find_by_type_value_request(buf@, conhandle@),
{
    let pattern = [0x2, conhandle[0], 0x20, 0xd, 0x0, 0x9, 0x0, 0x4, 0x0, 0x6];
    assert(pattern@ =~= seq![0x2u8, conhandle@[0], 0x20, 0xd, 0x0, 0x9, 0x0, 0x4, 0x0, 0x6]);
    starts_with(buf, &pattern)
}

pub fn att_error_find_by_type_value_attribute_not_found(conhandle: &[u8; 2]) -> (r: [u8; 14])
    ensures
        r@ == attribute_not_found_bytes(conhandle@),
{
    let r = [0x2, conhandle[0], 0x0, 0x9, 0x0, 0x5, 0x0, 0x4, 0x0, 0x1, 0x6, 0x1, 0x0, 0xa];
    assert(r@ =~= attribute_not_found_bytes(conhandle@));
    r
}

pub fn att_read_by_group_type_response(
    conhandle: &[u8; 2],
    atthandle: &[u8; 2],
    grpendhandle: &[u8; 2],
    uuid: &[u8; 2],
) -> (r: [u8; 17])
    ensures
        r@ == read_by_group_type_response_bytes(conhandle@, atthandle@, grpendhandle@, uuid@),
{
    let r = [
        0x2,
        conhandle[0],
        0x0,
        0xc,
        0x0,
        0x8,
        0x0,
        0x4,
        0x0,
        0x11,
        0x6,
        // Attribute data:
        atthandle[0],
        atthandle[1],
        grpendhandle[0],
        grpendhandle[1],
        uuid[0],
        uuid[1],
    ];
    assert(r@ =~= read_by_group_type_response_bytes(conhandle@, atthandle@, grpendhandle@, uuid@));
    r
}

pub fn smp_is_pairing_request(buf: &[u8], conhandle: &[u8; 2]) -> (r: bool)
    requires
        buf@.len() >= 10,
    ensures
        r == is_pairing_request(buf@, conhandle@),
{
    let pattern = [0x02, conhandle[0], 0x20, 0x0b, 0x00, 0x07, 0x00, 0x06, 0x00, 0x01];
    assert(pattern@ =~= seq![0x02u8, conhandle@[0], 0x20, 0x0b, 0x00, 0x07, 0x00, 0x06, 0x00, 0x01]);
    starts_with(buf, &pattern)
}

pub fn smp_is_pairing_confirm(buf: &[u8], conhandle: &[u8; 2]) -> (r: bool)
    requires
        buf@.len() >= 10,
    ensures
        r == is_pairing_confirm(buf@, conhandle@),
{
    let pattern = [0x2, conhandle[0], 0x20, 0x15, 0x0, 0x11, 0x0, 0x6, 0x0, 0x3];
    assert(pattern@ =~= seq![0x2u8, conhandle@[0], 0x20, 0x15, 0x0, 0x11, 0x0, 0x6, 0x0, 0x3]);
    starts_with(buf, &pattern)
}

pub fn smp_pairing_response(conhandle: &[u8; 2]) -> (r: [u8; 16])
    ensures
        r@ == pairing_response_bytes(conhandle@),
{
    let r = [
        0x02,
        conhandle[0],
        conhandle[1],
        0x0b,
        0x00,
        0x07,
        0x00,
        0x06,
        0x00,
        0x02,  // Code 0x02
        0x03,  // No Input No Output
        0x00,  // OOB data not present
        0x01,  // AuthReq (CT2 0, Keypress 0, Secure Conn 0, MITM 0, Bonding 0x01)
        0x10,  // Max encryption key size
        0x00,  // Initiator key distribution
        0x01,  // Responder key distribution
    ];
    assert(r@ =~= pairing_response_bytes(conhandle@));
    r
}

/// Pairing confirm
///
/// Confirm value is calculated using the C1 algorithm, use `c1_rev` for simple
/// byte arrays.
pub fn smp_pairing_confirm(conhandle: &[u8; 2], confirmvalue: &[u8; 16]) -> (r: [u8; 26])
    ensures
        r@ == pairing_confirm_bytes(conhandle@, confirmvalue@),
{
    let r = [
        0x2,
        conhandle[0],
        0x0,
        0x15,
        0x0,
        0x11,
        0x0,
        0x6,
        0x0,
        0x3,
        // Confirm value:
        confirmvalue[0],
        confirmvalue[1],
        confirmvalue[2],
        confirmvalue[3],
        confirmvalue[4],
        confirmvalue[5],
        confirmvalue[6],
        confirmvalue[7],
        confirmvalue[8],
        confirmvalue[9],
        confirmvalue[10],
        confirmvalue[11],
        confirmvalue[12],
        confirmvalue[13],
        confirmvalue[14],
        confirmvalue[15],
    ];
    assert(r@ =~= pairing_confirm_bytes(conhandle@, confirmvalue@));
    r
}

pub fn smp_is_pairing_random(buf: &[u8], conhandle: &[u8; 2]) -> (r: bool)
    requires
        buf@.len() >= 10,
    ensures
        r == is_pairing_random(buf@, conhandle@),
{
    let pattern = [0x2, conhandle[0], 0x20, 0x15, 0x00, 0x11, 0x0, 0x6, 0x0, 0x4];
    assert(pattern@ =~= seq![0x2u8, conhandle@[0], 0x20, 0x15, 0x00, 0x11, 0x0, 0x6, 0x0, 0x4]);
    starts_with(buf, &pattern)
}

/// Pairing random response
pub fn smp_pairing_random(conhandle: &[u8; 2], random: &[u8; 16]) -> (r: [u8; 26])
    ensures
        r@ == pairing_random_bytes(conhandle@, random@),
{
    let r = [
        0x2,
        conhandle[0],
        0x0,
        0x15,
        0x00,
        0x11,
        0x00,
        0x06,
        0x00,
        0x04,
        // Random value:
        random[0],
        random[1],
        random[2],
        random[3],
        random[4],
        random[5],
        random[6],
        random[7],
        random[8],
        random[9],
        random[10],
        random[11],
        random[12],
        random[13],
        random[14],
        random[15],
    ];
    assert(r@ =~= pairing_random_bytes(conhandle@, random@));
    r
}

/// Pairing Failed response
pub fn smp_pairing_failed_confirm_value(conhandle: &[u8; 2]) -> (r: [u8; 11])
    ensures
        r@ == pairing_failed_confirm_value_bytes(conhandle@),
{
    // 0x04 = Confirm Value Failed
    let r = [0x2, conhandle[0], 0x20, 0x6, 0x0, 0x2, 0x0, 0x6, 0x0, 0x5, 0x4];
    assert(r@ =~= pairing_failed_confirm_value_bytes(conhandle@));
    r
}

// --- Session ---

/// Where the peripheral stands with the central.
#[derive(Debug, Clone, Copy, PartialEq, Eq)]
pub enum Stage {
    /// Advertising; waiting for an LE Connection Complete event.
    AwaitingConnection,
    /// Connected; answering pairing and attribute requests.
    Pairing,
    /// Encryption is on and the keys were distributed.
    Done,
}

/// The state of the peripheral: the connection, what the central sent
/// while pairing, and our own address, random value and long term key.
#[derive(Debug, Clone, Copy)]
pub struct Parrot {
    pub stage: Stage,
    pub conhandle: [u8; 2],
    /// Initiator (central) address type and address.
    pub iat: u8,
    pub ia: [u8; 6],
    /// Pairing request and pairing response parameters (code to responder
    /// key distribution).
    pub preq: [u8; 7],
    pub pres: [u8; 7],
    pub max_key_size: u8,
    /// Initiator random and confirm values.
    pub irandom: [u8; 16],
    pub iconfirm_value: [u8; 16],
    /// Responder (our) address type, address and random value.
    pub rat: u8,
    pub ra: [u8; 6],
    pub rrandom: [u8; 16],
    pub long_term_key: [u8; 16],
}

/// The state of the peripheral with its byte arrays by value.
pub struct ParrotView {
    pub stage: Stage,
    pub conhandle: Seq<u8>,
    pub iat: u8,
    pub ia: Seq<u8>,
    pub preq: Seq<u8>,
    pub pres: Seq<u8>,
    pub max_key_size: u8,
    pub irandom: Seq<u8>,
    pub iconfirm_value: Seq<u8>,
    pub rat: u8,
    pub ra: Seq<u8>,
    pub rrandom: Seq<u8>,
    pub long_term_key: Seq<u8>,
}

impl View for Parrot {
    type V = ParrotView;

    open spec fn view(&self) -> ParrotView {
        ParrotView {
            stage: self.stage,
            conhandle: self.conhandle@,
            iat: self.iat,
            ia: self.ia@,
            preq: self.preq@,
            pres: self.pres@,
            max_key_size: self.max_key_size,
            irandom: self.irandom@,
            iconfirm_value: self.iconfirm_value@,
            rat: self.rat,
            ra: self.ra@,
            rrandom: self.rrandom@,
            long_term_key: self.long_term_key@,
        }
    }
}

/// Our static random address.
pub open spec fn server_address() -> Seq<u8> {
    seq![0xa9u8, 0x36, 0x3c, 0xde, 0x52, 0xd7]
}

/// Our pairing random value.
pub open spec fn server_random() -> Seq<u8> {
    seq![0x6du8, 0xde, 0x61, 0xf5, 0x68, 0x16, 0x96, 0x67, 0x8a, 0x5e, 0x28, 0x70, 0x1a, 0x34, 0x38, 0x0]
}

/// The long term key we distribute.
pub open spec fn server_long_term_key() -> Seq<u8> {
    seq![0x08u8, 0x7A, 0xC7, 0xFB, 0x8C, 0x86, 0xF3, 0xCF, 0x36, 0xF4, 0x0C, 0xD8, 0xDD, 0xA2, 0xF9, 0xD3]
}

/// The random number sent with the Central Identification.
pub open spec fn central_identification_random() -> Seq<u8> {
    seq![0x50u8, 0xc2, 0xe8, 0xd6, 0xe, 0x26, 0x9, 0xa]
}

/// The state before anything was sent.
pub open spec fn initial_parrot() -> ParrotView {
    ParrotView {
        stage: Stage::AwaitingConnection,
        conhandle: seq![0u8, 0u8],
        iat: 0,
        ia: zeros(6),
        preq: zeros(7),
        pres: zeros(7),
        max_key_size: 16,
        irandom: zeros(16),
        iconfirm_value: zeros(16),
        rat: 1,
        ra: server_address(),
        rrandom: server_random(),
        long_term_key: server_long_term_key(),
    }
}

/// The commands sent before advertising starts, in order.
pub open spec fn setup_commands(addr: Seq<u8>) -> Seq<Seq<u8>> {
    seq![
        reset_bytes(),
        le_event_mask_bytes(),
        write_scan_enabled_bytes(),
        write_connection_accept_timeout_bytes(),
        write_page_timeout_bytes(),
        read_local_supported_commands_bytes(),
        read_bd_addr_bytes(),
        read_buffer_size_bytes(),
        change_local_name_bytes(),
        le_set_random_address_bytes(addr),
        le_set_advertising_parameters_bytes(),
        le_set_advertising_data_bytes(),
        le_read_local_p256_public_key_bytes(),
        le_set_advertising_enable_bytes(),
    ]
}

/// How many reads follow each setup command: one, but two after the P-256
/// public key request (command status, then the key).
pub open spec fn setup_reads(i: int) -> usize {
    if i == 12 {
        2
    } else {
        1
    }
}

/// The connection handle of an LE Connection Complete event (the low twelve
/// bits of bytes 5 and 6), as two little-endian bytes.
pub open spec fn connection_handle_bytes(buf: Seq<u8>) -> Seq<u8> {
    le16((((buf[5] as u16) | ((buf[6] as u16) << 8u16)) & 0xfffu16) as u16)
}

/// The all-zero temporary key of Just Works pairing.
pub open spec fn just_works_key() -> Seq<u8> {
    zeros(16)
}

/// The confirm value of `random` for the pairing in `p`.
pub open spec fn confirm_value(p: ParrotView, random: Seq<u8>) -> Seq<u8> {
    spec_c1_rev(just_works_key(), random, p.pres, p.preq, p.iat, p.ia, p.rat, p.ra)
}

/// What the peripheral does with a buffer read while pairing: the new state
/// and the packets written, in order.
pub open spec fn pairing_step(p: ParrotView, buf: Seq<u8>) -> (ParrotView, Seq<Seq<u8>>) {
    let ch = p.conhandle;
    if is_pairing_request(buf, ch) {
        let res = pairing_response_bytes(ch);
        (
            ParrotView { preq: buf.subrange(9, 16), pres: res.subrange(9, 16), max_key_size: buf[13], ..p },
            seq![res],
        )
    } else if is_pairing_confirm(buf, ch) {
        (
            ParrotView { iconfirm_value: buf.subrange(10, 26), ..p },
            seq![pairing_confirm_bytes(ch, confirm_value(p, p.rrandom))],
        )
    } else if is_pairing_random(buf, ch) {
        let irandom = buf.subrange(10, 26);
        (
            ParrotView { irandom, ..p },
            if confirm_value(p, irandom) != p.iconfirm_value {
                seq![pairing_failed_confirm_value_bytes(ch)]
            } else {
                seq![pairing_random_bytes(ch, p.rrandom)]
            },
        )
    } else if is_le_long_term_key_request(buf, ch) {
        let short_term_key = spec_s1_rev(just_works_key(), p.rrandom, p.irandom);
        (p, seq![long_term_key_request_reply_bytes(ch, short_term_key)])
    } else if is_encryption_change(buf) {
        (
            ParrotView { stage: Stage::Done, ..p },
            seq![
                encryption_information_bytes(ch, p.long_term_key),
                central_identification_bytes(ch, central_identification_random()),
            ],
        )
    } else if is_find_by_type_value_request(buf, ch) {
        (p, seq![attribute_not_found_bytes(ch)])
    } else if is_read_by_group_type_request(buf, ch) {
        let uuid = buf.subrange(14, 16);
        if uuid == seq![0u8, 0x28u8] {
            (p, seq![read_by_group_type_response_bytes(ch, seq![0x03u8, 0x00], seq![0x07u8, 0x00], uuid)])
        } else {
            (p, Seq::empty())
        }
    } else {
        (p, Seq::empty())
    }
}

/// What the peripheral does with `read_len` bytes read into `buf`: the new
/// state and the packets written, in order.
pub open spec fn on_read_step(p: ParrotView, buf: Seq<u8>, read_len: usize) -> (ParrotView, Seq<Seq<u8>>) {
    match p.stage {
        Stage::AwaitingConnection => {
            if read_len > 0 && is_le_connection_complete(buf) {
                let ch = connection_handle_bytes(buf);
                (
                    ParrotView {
                        stage: Stage::Pairing,
                        conhandle: ch,
                        ia: buf.subrange(9, 15),
                        iat: buf[8] & 0x01,
                        ..p
                    },
                    seq![mtu_request_bytes(ch), mtu_response_bytes(ch)],
                )
            } else {
                (p, Seq::empty())
            }
        },
        Stage::Pairing => pairing_step(p, buf),
        Stage::Done => (p, Seq::empty()),
    }
}

/// The bytes of each packet in `w`.
pub open spec fn packets_view(w: Seq<Vec<u8>>) -> Seq<Seq<u8>> {
    w.map_values(|v: Vec<u8>| v@)
}

/// A command to send during setup and the number of reads that follow it.
pub struct SetupStep {
    pub command: Vec<u8>,
    pub reads: usize,
}

/// The bytes of `a` in a vector.
fn to_vec<const N: usize>(a: &[u8; N]) -> (r: Vec<u8>)
    ensures
        r@ == a@,
{
    vstd::slice::slice_to_vec(a)
}

impl Parrot {
    pub fn new() -> (r: Self)
        ensures
            r@ == initial_parrot(),
    {
        let r = Parrot {
            stage: Stage::AwaitingConnection,
            conhandle: [0, 0],
            iat: 0x0,
            ia: [0u8; 6],
            preq: [0u8; 7],
            pres: [0u8; 7],
            max_key_size: 16,
            irandom: [0u8; 16],
            iconfirm_value: [0u8; 16],
            rat: 0x1,
            ra: [0xa9, 0x36, 0x3c, 0xde, 0x52, 0xd7],
            rrandom: [
                0x6d,
                0xde,
                0x61,
                0xf5,
                0x68,
                0x16,
                0x96,
                0x67,
                0x8a,
                0x5e,
                0x28,
                0x70,
                0x1a,
                0x34,
                0x38,
                0x0,
            ],
            long_term_key: [
                0x08,
                0x7A,
                0xC7,
                0xFB,
                0x8C,
                0x86,
                0xF3,
                0xCF,
                0x36,
                0xF4,
                0x0C,
                0xD8,
                0xDD,
                0xA2,
                0xF9,
                0xD3,
            ],
        };
        assert(r@.conhandle =~= seq![0u8, 0u8]);
        assert(r@.ia =~= zeros(6));
        assert(r@.preq =~= zeros(7));
        assert(r@.pres =~= zeros(7));
        assert(r@.irandom =~= zeros(16));
        assert(r@.iconfirm_value =~= zeros(16));
        assert(r@.ra =~= server_address());
        assert(r@.rrandom =~= server_random());
        assert(r@.long_term_key =~= server_long_term_key());
        r
    }

    /// The setup commands, each with the number of reads that follow it.
    pub fn setup_steps(&self) -> (r: Vec<SetupStep>)
        ensures
            r@.len() == setup_commands(self.ra@).len(),
            forall|i: int|
                0 <= i < r@.len() ==> #[trigger] r@[i].command@ == setup_commands(self.ra@)[i]
                    && r@[i].reads == setup_reads(i),
    {
        let reset = [0x01, 0x03, 0x0C, 0x00];
        assert(reset@ =~= reset_bytes());
        let r = vec![
            SetupStep { command: to_vec(&reset), reads: 1 },
            SetupStep { command: to_vec(&cmd_le_event_mask()), reads: 1 },
            SetupStep { command: to_vec(&cmd_write_scan_enabled()), reads: 1 },
            SetupStep { command: to_vec(&cmd_write_connection_accept_timeout()), reads: 1 },
            SetupStep { command: to_vec(&cmd_write_page_timeout()), reads: 1 },
            SetupStep { command: to_vec(&cmd_read_local_supported_commands()), reads: 1 },
            SetupStep { command: to_vec(&cmd_read_bd_addr()), reads: 1 },
            SetupStep { command: to_vec(&cmd_read_buffer_size()), reads: 1 },
            SetupStep { command: to_vec(&cmd_change_local_name()), reads: 1 },
            SetupStep { command: to_vec(&cmd_le_set_random_address(&self.ra)), reads: 1 },
            SetupStep { command: to_vec(&cmd_le_set_advertising_parameters()), reads: 1 },
            SetupStep { command: to_vec(&cmd_le_set_advertising_data()), reads: 1 },
            SetupStep { command: to_vec(&cmd_le_read_local_p256_public_key()), reads: 2 },
            SetupStep { command: to_vec(&cmd_le_set_advertising_enable()), reads: 1 },
        ];
        r
    }

    /// Takes the `read_len` bytes read into `buf` (a zeroed buffer when
    /// nothing was read) and returns the packets to write, in order.
    pub fn on_read(&mut self, buf: &[u8], read_len: usize) -> (r: Vec<Vec<u8>>)
        requires
            buf@.len() >= 26,
        ensures
            (final(self)@, packets_view(r@)) == on_read_step(old(self)@, buf@, read_len),
    {
        match self.stage {
            Stage::AwaitingConnection => {
                if read_len > 0 && evt_is_le_connection_complete(buf) {
                    // Connection handle 5th and 6th byte (12 bits)
                    let h: u16 = (buf[5] as u16 | ((buf[6] as u16) << 8u16)) & 0xfffu16;
                    self.conhandle = [(h % 256) as u8, (h / 256) as u8];
                    // Bytes 9-14
                    self.ia = [buf[9], buf[10], buf[11], buf[12], buf[13], buf[14]];
                    // Peer address type (8th byte)
                    self.iat = buf[8] & 0x01;
                    self.stage = Stage::Pairing;
                    let r = vec![
                        to_vec(&att_send_mtu_request(&self.conhandle)),
                        to_vec(&att_send_mtu_response(&self.conhandle)),
                    ];
                    proof {
                        let ch = connection_handle_bytes(buf@);
                        assert(self.conhandle@ =~= ch);
                        assert(self.ia@ =~= buf@.subrange(9, 15));
                        assert(packets_view(r@) =~= seq![mtu_request_bytes(ch), mtu_response_bytes(ch)]);
                    }
                    r
                } else {
                    let r: Vec<Vec<u8>> = Vec::new();
                    assert(packets_view(r@) =~= Seq::<Seq<u8>>::empty());
                    r
                }
            },
            Stage::Pairing => self.pairing_step(buf),
            Stage::Done => {
                let r: Vec<Vec<u8>> = Vec::new();
                assert(packets_view(r@) =~= Seq::<Seq<u8>>::empty());
                r
            },
        }
    }

    /// One buffer read while pairing.
    fn pairing_step(&mut self, buf: &[u8]) -> (r: Vec<Vec<u8>>)
        requires
            buf@.len() >= 26,
            old(self).stage == Stage::Pairing,
        ensures
            (final(self)@, packets_view(r@)) == pairing_step(old(self)@, buf@),
    {
        let conhandle = self.conhandle;
        let k = [0u8; 16];
        assert(k@ =~= just_works_key());
        let mut r: Vec<Vec<u8>> = Vec::new();
        if smp_is_pairing_request(buf, &conhandle) {
            let res = smp_pairing_response(&conhandle);
            // c1 requires preq, and pres
            self.preq = [buf[9], buf[10], buf[11], buf[12], buf[13], buf[14], buf[15]];
            self.pres = [res[9], res[10], res[11], res[12], res[13], res[14], res[15]];
            self.max_key_size = buf[13];
            r.push(to_vec(&res));
            proof {
                assert(self.preq@ =~= buf@.subrange(9, 16));
                assert(self.pres@ =~= res@.subrange(9, 16));
            }
        } else if smp_is_pairing_confirm(buf, &conhandle) {
            let ghost before = self@;
            self.iconfirm_value = [
                buf[10],
                buf[11],
                buf[12],
                buf[13],
                buf[14],
                buf[15],
                buf[16],
                buf[17],
                buf[18],
                buf[19],
                buf[20],
                buf[21],
                buf[22],
                buf[23],
                buf[24],
                buf[25],
            ];
            let confirm = c1_rev(
                &k,
                &self.rrandom,
                &self.pres,
                &self.preq,
                self.iat,
                &self.ia,
                self.rat,
                &self.ra,
            );
            r.push(to_vec(&smp_pairing_confirm(&conhandle, &confirm)));
            proof {
                assert(self.iconfirm_value@ =~= buf@.subrange(10, 26));
            }
        } else if smp_is_pairing_random(buf, &conhandle) {
            self.irandom = [
                buf[10],
                buf[11],
                buf[12],
                buf[13],
                buf[14],
                buf[15],
                buf[16],
                buf[17],
                buf[18],
                buf[19],
                buf[20],
                buf[21],
                buf[22],
                buf[23],
                buf[24],
                buf[25],
            ];
            let confirm = c1_rev(
                &k,
                &self.irandom,
                &self.pres,
                &self.preq,
                self.iat,
                &self.ia,
                self.rat,
                &self.ra,
            );
            proof {
                assert(self.irandom@ =~= buf@.subrange(10, 26));
            }
            if !slices_equal(&confirm, &self.iconfirm_value) {
                r.push(to_vec(&smp_pairing_failed_confirm_value(&conhandle)));
            } else {
                r.push(to_vec(&smp_pairing_random(&conhandle, &self.rrandom)));
            }
        } else if evt_is_le_long_term_key_request(buf, &conhandle) {
            let short_term_key = s1_rev(&k, &self.rrandom, &self.irandom);
            r.push(to_vec(&cmd_le_long_term_key_request_reply(&conhandle, &short_term_key)));
        } else if evt_is_encryption_change(buf) {
            r.push(to_vec(&smp_encryption_information(&conhandle, &self.long_term_key)));
            let central_random = [0x50, 0xc2, 0xe8, 0xd6, 0xe, 0x26, 0x9, 0xa];
            assert(central_random@ =~= central_identification_random());
            r.push(to_vec(&smp_central_identification(&conhandle, &central_random)));
            self.stage = Stage::Done;
        } else if att_is_find_by_type_value_request(buf, &conhandle) {
            r.push(to_vec(&att_error_find_by_type_value_attribute_not_found(&conhandle)));
        } else if att_is_read_by_group_type_request(buf, &conhandle) {
            let uuid = [buf[14], buf[15]];
            assert(uuid@ =~= buf@.subrange(14, 16));
            // 0x2800
            if uuid[0] == 0 && uuid[1] == 0x28 {
                let atthandle = [0x03, 0x00];
                let grpendhandle = [0x07, 0x00];
                assert(atthandle@ =~= seq![0x03u8, 0x00]);
                assert(grpendhandle@ =~= seq![0x07u8, 0x00]);
                r.push(
                    to_vec(&att_read_by_group_type_response(&conhandle, &atthandle, &grpendhandle, &uuid)),
                );
                assert(uuid@ =~= seq![0u8, 0x28u8]);
            }
        }
        assert(packets_view(r@) =~= pairing_step(old(self)@, buf@).1);
        r
    }
}

// --- Laws ---

/// Every step keeps our own address, random value and long term key; once
/// connected, the connection handle no longer changes; the stage only moves
/// forward; and once done, nothing more is written.
pub proof fn law_step_keeps_session(p: ParrotView, buf: Seq<u8>, read_len: usize)
    requires
        buf.len() >= 26,
    ensures
        ({
            let (q, w) = on_read_step(p, buf, read_len);
            &&& q.rat == p.rat && q.ra == p.ra && q.rrandom == p.rrandom
            &&& q.long_term_key == p.long_term_key
            &&& p.stage != Stage::AwaitingConnection ==> q.conhandle == p.conhandle
            &&& p.stage == Stage::Pairing ==> q.stage != Stage::AwaitingConnection
            &&& p.stage == Stage::Done ==> q == p && w.len() == 0
        }),
{
}

/// A central that sends a confirm value and then the random value that the
/// confirm value was computed from is answered with our random value.
pub proof fn law_matching_confirm_gets_random(p: ParrotView, confirm: Seq<u8>, random: Seq<u8>)
    requires
        p.stage == Stage::Pairing,
        confirm.len() >= 26,
        random.len() >= 26,
        is_pairing_confirm(confirm, p.conhandle),
        is_pairing_random(random, p.conhandle),
        confirm.subrange(10, 26) == confirm_value(p, random.subrange(10, 26)),
    ensures
        ({
            let (q, w1) = on_read_step(p, confirm, 26);
            let (s, w2) = on_read_step(q, random, 26);
            &&& w1 == seq![pairing_confirm_bytes(p.conhandle, confirm_value(p, p.rrandom))]
            &&& w2 == seq![pairing_random_bytes(p.conhandle, p.rrandom)]
            &&& s.irandom == random.subrange(10, 26)
        }),
{
    assert(confirm[3] == 0x15);
    assert(!is_pairing_request(confirm, p.conhandle)) by {
        assert(confirm.subrange(0, 10)[3] == 0x15);
    }
    let (q, w1) = on_read_step(p, confirm, 26);
    assert(q.pres == p.pres && q.preq == p.preq && q.iat == p.iat && q.ia == p.ia);
    assert(confirm_value(q, random.subrange(10, 26)) == confirm_value(p, random.subrange(10, 26)));
    assert(!is_pairing_request(random, p.conhandle)) by {
        assert(random.subrange(0, 10)[3] == 0x15);
        assert(random.subrange(0, 10)[9] == 0x4);
    }
    assert(!is_pairing_confirm(random, p.conhandle)) by {
        assert(random.subrange(0, 10)[9] == 0x4);
    }
}

/// A central whose random value does not give back the confirm value it
/// sent is answered with Pairing Failed (confirm value failed).
pub proof fn law_mismatching_confirm_fails(p: ParrotView, random: Seq<u8>)
    requires
        p.stage == Stage::Pairing,
        random.len() >= 26,
        is_pairing_random(random, p.conhandle),
        confirm_value(p, random.subrange(10, 26)) != p.iconfirm_value,
    ensures
        on_read_step(p, random, 26).1 == seq![pairing_failed_confirm_value_bytes(p.conhandle)],
{
    assert(!is_pairing_request(random, p.conhandle)) by {
        assert(random.subrange(0, 10)[3] == 0x15);
    }
    assert(!is_pairing_confirm(random, p.conhandle)) by {
        assert(random.subrange(0, 10)[9] == 0x4);
    }
}

/// The setup sequence is made of HCI command packets (indicator 0x01, then
/// the opcode, then a length byte that counts the parameters after it), in
/// this order: Reset, LE Set Event Mask, Write Scan Enable (inquiry and page
/// scan, 0x03), Write Connection Accept Timeout, Write Page Timeout, Read
/// Local Supported Commands, Read BD_ADDR, LE Read Buffer Size, Write Local
/// Name, LE Set Random Address, LE Set Advertising Parameters, LE Set
/// Advertising Data, LE Read Local P-256 Public Key, LE Set Advertising
/// Enable. It sets our random address, then advertising parameters (LE Set Advertising
/// Parameters, OGF 0x08 OCF 0x006) with advertising type ADV_IND (0x00,
/// connectable undirected), our own address type the one pairing uses, and
/// all three advertising channels; and it ends by enabling advertising (OGF
/// 0x08 OCF 0x00A, parameter 0x01).
pub proof fn law_setup_advertises_connectable(addr: Seq<u8>)
    requires
        addr.len() == 6,
    ensures
        ({
            let cmds = setup_commands(addr);
            &&& forall|i: int| 0 <= i < cmds.len() ==> #[trigger] cmds[i].len() >= 4
                && cmds[i][0] == 0x01 && cmds[i].len() == 4 + cmds[i][3]
            &&& cmds[0].subrange(1, 3) == opcode_bytes(0x03, 0x003)
            &&& cmds[1].subrange(1, 3) == opcode_bytes(0x08, 0x001)
            &&& cmds[2].subrange(1, 3) == opcode_bytes(0x03, 0x01A)
            &&& cmds[3].subrange(1, 3) == opcode_bytes(0x03, 0x016)
            &&& cmds[4].subrange(1, 3) == opcode_bytes(0x03, 0x018)
            &&& cmds[5].subrange(1, 3) == opcode_bytes(0x04, 0x002)
            &&& cmds[6].subrange(1, 3) == opcode_bytes(0x04, 0x009)
            &&& cmds[7].subrange(1, 3) == opcode_bytes(0x08, 0x002)
            &&& cmds[8].subrange(1, 3) == opcode_bytes(0x03, 0x013)
            &&& cmds[11].subrange(1, 3) == opcode_bytes(0x08, 0x008)
            &&& cmds[12].subrange(1, 3) == opcode_bytes(0x08, 0x025)
            &&& cmds[2][4] == 0x03
            &&& cmds[9].subrange(1, 3) == opcode_bytes(0x08, 0x005)
            &&& cmds[9].subrange(4, 10) == addr
            &&& cmds[10].subrange(1, 3) == opcode_bytes(0x08, 0x006)
            &&& cmds[10][8] == 0x00
            &&& cmds[10][9] == initial_parrot().rat
            &&& cmds[10][17] == 0x07
            &&& cmds[13].subrange(1, 3) == opcode_bytes(0x08, 0x00A)
            &&& cmds[13][4] == 0x01
        }),
{
    let cmds = setup_commands(addr);
    assert(cmds[0].subrange(1, 3) =~= opcode_bytes(0x03, 0x003));
    assert(cmds[1].subrange(1, 3) =~= opcode_bytes(0x08, 0x001));
    assert(cmds[2].subrange(1, 3) =~= opcode_bytes(0x03, 0x01A));
    assert(cmds[3].subrange(1, 3) =~= opcode_bytes(0x03, 0x016));
    assert(cmds[4].subrange(1, 3) =~= opcode_bytes(0x03, 0x018));
    assert(cmds[5].subrange(1, 3) =~= opcode_bytes(0x04, 0x002));
    assert(cmds[6].subrange(1, 3) =~= opcode_bytes(0x04, 0x009));
    assert(cmds[7].subrange(1, 3) =~= opcode_bytes(0x08, 0x002));
    assert(cmds[8].subrange(1, 3) =~= opcode_bytes(0x03, 0x013));
    assert(cmds[11].subrange(1, 3) =~= opcode_bytes(0x08, 0x008));
    assert(cmds[12].subrange(1, 3) =~= opcode_bytes(0x08, 0x025));
    assert(cmds[9].subrange(1, 3) =~= opcode_bytes(0x08, 0x005));
    assert(cmds[9].subrange(4, 10) =~= addr);
    assert(cmds[10].subrange(1, 3) =~= opcode_bytes(0x08, 0x006));
    assert(cmds[13].subrange(1, 3) =~= opcode_bytes(0x08, 0x00A));
    assert forall|i: int| 0 <= i < cmds.len() implies #[trigger] cmds[i].len() >= 4
        && cmds[i][0] == 0x01 && cmds[i].len() == 4 + cmds[i][3] by {
        if i == 8 {
            assert(cmds[8] == change_local_name_bytes());
            assert(change_local_name_bytes().len() == 252);
        } else if i == 9 {
            assert(cmds[9] == le_set_random_address_bytes(addr));
        } else if i == 11 {
            assert(cmds[11] == le_set_advertising_data_bytes());
            assert(le_set_advertising_data_bytes().len() == 36);
        }
    }
}

/// Whether `p` is an HCI ACL data packet (indicator 0x02) whose ACL length
/// (bytes 3 and 4, little-endian) counts the bytes after the ACL header and
/// whose L2CAP header (bytes 5 to 8) counts the payload after it and names
/// channel `cid`: 0x0004 for the attribute protocol, 0x0006 for the
/// security manager.
pub open spec fn acl_framed(p: Seq<u8>, cid: int) -> bool {
    &&& p.len() >= 10
    &&& p[0] == 0x02
    &&& p[3] + 256 * p[4] == p.len() - 5
    &&& p[5] + 256 * p[6] == p.len() - 9
    &&& p[7] + 256 * p[8] == cid
}

/// The packets the peripheral sends over the connection are framed ACL
/// packets on the right channel, each with the code of its message: on the
/// security manager channel Pairing Response 0x02 (IO capability 0x03 no
/// input no output, OOB data 0x00 absent, AuthReq 0x01 bonding, maximum key
/// size 16, initiator keys none, responder keys the encryption key), Pairing
/// Confirm 0x03, Pairing Random 0x04, Pairing Failed 0x05 with reason 0x04
/// (confirm value failed), Encryption Information 0x06 and Central
/// Identification 0x07; on the attribute channel Exchange MTU Request 0x02
/// and Response 0x03 (MTU 247), Error Response 0x01 to a Find By Type Value
/// Request (0x06) with code 0x0A (attribute not found) and Read By Group
/// Type Response 0x11. The LE Long Term Key Request Reply is the HCI command
/// OGF 0x08 OCF 0x01A. The packets recognised carry the codes they are named
/// after: Pairing Request 0x01, Pairing Confirm 0x03, Pairing Random 0x04 on
/// the security manager channel, Read By Group Type Request 0x10 and Find By
/// Type Value Request 0x06 on the attribute channel.
pub proof fn law_sent_packets_framed(
    ch: Seq<u8>,
    key: Seq<u8>,
    random8: Seq<u8>,
    handles: Seq<u8>,
    buf: Seq<u8>,
)
    requires
        ch.len() == 2,
        key.len() == 16,
        random8.len() == 8,
        handles.len() == 6,
        buf.len() >= 16,
    ensures
        acl_framed(pairing_response_bytes(ch), 0x0006) && pairing_response_bytes(ch)[9] == 0x02,
        pairing_response_bytes(ch).subrange(10, 16) == seq![0x03u8, 0x00, 0x01, 16, 0x00, 0x01],
        acl_framed(pairing_confirm_bytes(ch, key), 0x0006) && pairing_confirm_bytes(ch, key)[9] == 0x03,
        acl_framed(pairing_random_bytes(ch, key), 0x0006) && pairing_random_bytes(ch, key)[9] == 0x04,
        acl_framed(pairing_failed_confirm_value_bytes(ch), 0x0006)
            && pairing_failed_confirm_value_bytes(ch)[9] == 0x05
            && pairing_failed_confirm_value_bytes(ch)[10] == 0x04,
        acl_framed(encryption_information_bytes(ch, key), 0x0006)
            && encryption_information_bytes(ch, key)[9] == 0x06,
        acl_framed(central_identification_bytes(ch, random8), 0x0006)
            && central_identification_bytes(ch, random8)[9] == 0x07,
        acl_framed(mtu_request_bytes(ch), 0x0004) && mtu_request_bytes(ch)[9] == 0x02,
        acl_framed(mtu_response_bytes(ch), 0x0004) && mtu_response_bytes(ch)[9] == 0x03
            && mtu_response_bytes(ch)[10] + 256 * mtu_response_bytes(ch)[11] == 247,
        acl_framed(attribute_not_found_bytes(ch), 0x0004) && attribute_not_found_bytes(ch)[9] == 0x01
            && attribute_not_found_bytes(ch)[10] == 0x06 && attribute_not_found_bytes(ch)[13] == 0x0A,
        acl_framed(
            read_by_group_type_response_bytes(ch, handles.subrange(0, 2), handles.subrange(2, 4), handles.subrange(4, 6)),
            0x0004,
        ) && read_by_group_type_response_bytes(ch, handles.subrange(0, 2), handles.subrange(2, 4), handles.subrange(4, 6))[9]
            == 0x11,
        long_term_key_request_reply_bytes(ch, key)[0] == 0x01
            && long_term_key_request_reply_bytes(ch, key).subrange(1, 3) == opcode_bytes(0x08, 0x01A)
            && long_term_key_request_reply_bytes(ch, key).len() == 4 + long_term_key_request_reply_bytes(ch, key)[3],
        is_pairing_request(buf, ch) ==> buf[9] == 0x01 && buf[7] + 256 * buf[8] == 0x0006,
        is_pairing_confirm(buf, ch) ==> buf[9] == 0x03 && buf[7] + 256 * buf[8] == 0x0006,
        is_pairing_random(buf, ch) ==> buf[9] == 0x04 && buf[7] + 256 * buf[8] == 0x0006,
        is_read_by_group_type_request(buf, ch) ==> buf[9] == 0x10 && buf[7] + 256 * buf[8] == 0x0004,
        is_find_by_type_value_request(buf, ch) ==> buf[9] == 0x06 && buf[7] + 256 * buf[8] == 0x0004,
{
    assert(pairing_response_bytes(ch).subrange(10, 16) =~= seq![0x03u8, 0x00, 0x01, 16, 0x00, 0x01]);
    assert(long_term_key_request_reply_bytes(ch, key).subrange(1, 3) =~= opcode_bytes(0x08, 0x01A));
    let r = read_by_group_type_response_bytes(ch, handles.subrange(0, 2), handles.subrange(2, 4), handles.subrange(4, 6));
    assert(r.len() == 17);
    if is_pairing_request(buf, ch) {
        assert(buf.subrange(0, 10)[9] == 0x01 && buf.subrange(0, 10)[7] == 0x06 && buf.subrange(0, 10)[8] == 0x00);
    }
    if is_pairing_confirm(buf, ch) {
        assert(buf.subrange(0, 10)[9] == 0x03 && buf.subrange(0, 10)[7] == 0x06 && buf.subrange(0, 10)[8] == 0x00);
    }
    if is_pairing_random(buf, ch) {
        assert(buf.subrange(0, 10)[9] == 0x04 && buf.subrange(0, 10)[7] == 0x06 && buf.subrange(0, 10)[8] == 0x00);
    }
    if is_read_by_group_type_request(buf, ch) {
        assert(buf.subrange(0, 10)[9] == 0x10 && buf.subrange(0, 10)[7] == 0x04 && buf.subrange(0, 10)[8] == 0x00);
    }
    if is_find_by_type_value_request(buf, ch) {
        assert(buf.subrange(0, 10)[9] == 0x06 && buf.subrange(0, 10)[7] == 0x04 && buf.subrange(0, 10)[8] == 0x00);
    }
}

} // verus!
