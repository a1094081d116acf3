//! The fixed texts of the command protocol: status lines, error
//! messages, command and option names, and the replication metadata
//! payload. Each text exists as a spec sequence, which the contracts
//! speak of, and as a builder of the same bytes for executable code.

use vstd::prelude::*;

verus! {

/// The status text of a successful write. (`OK`)
pub open spec fn msg_ok() -> Seq<u8> {
    seq![79u8, 75]
}

/// The bytes of `msg_ok`.
pub fn msg_ok_vec() -> (r: Vec<u8>)
    ensures
        r@ == msg_ok(),
{
    let mut v: Vec<u8> = Vec::new();
    v.push(79);
    v.push(75);
    proof {
        assert(v@ =~= msg_ok());
    }
    v
}

/// The status text answering a ping. (`PONG`)
pub open spec fn msg_pong() -> Seq<u8> {
    seq![80u8, 79, 78, 71]
}

/// The bytes of `msg_pong`.
pub fn msg_pong_vec() -> (r: Vec<u8>)
    ensures
        r@ == msg_pong(),
{
    let mut v: Vec<u8> = Vec::new();
    v.push(80);
    v.push(79);
    v.push(78);
    v.push(71);
    proof {
        assert(v@ =~= msg_pong());
    }
    v
}

/// Too few arguments to the set command. (`wrong number of arguments for 'set' command`)
pub open spec fn msg_set_arity() -> Seq<u8> {
    seq![119u8, 114, 111, 110, 103, 32, 110, 117, 109, 98, 101, 114, 32, 111, 102, 32, 97, 114, 103, 117, 109, 101, 110, 116, 115, 32, 102, 111, 114, 32, 39, 115, 101, 116, 39, 32, 99, 111, 109, 109, 97, 110, 100]
}

/// The bytes of `msg_set_arity`.
pub fn msg_set_arity_vec() -> (r: Vec<u8>)
    ensures
        r@ == msg_set_arity(),
{
    let mut v: Vec<u8> = Vec::new();
    v.push(119);
    v.push(114);
    v.push(111);
    v.push(110);
    v.push(103);
    v.push(32);
    v.push(110);
    v.push(117);
    v.push(109);
    v.push(98);
    v.push(101);
    v.push(114);
    v.push(32);
    v.push(111);
    v.push(102);
    v.push(32);
    v.push(97);
    v.push(114);
    v.push(103);
    v.push(117);
    v.push(109);
    v.push(101);
    v.push(110);
    v.push(116);
    v.push(115);
    v.push(32);
    v.push(102);
    v.push(111);
    v.push(114);
    v.push(32);
    v.push(39);
    v.push(115);
    v.push(101);
    v.push(116);
    v.push(39);
    v.push(32);
    v.push(99);
    v.push(111);
    v.push(109);
    v.push(109);
    v.push(97);
    v.push(110);
    v.push(100);
    proof {
        assert(v@ =~= msg_set_arity());
    }
    v
}

/// Too few arguments to the get command. (`wrong number of arguments for 'get' command`)
pub open spec fn msg_get_arity() -> Seq<u8> {
    seq![119u8, 114, 111, 110, 103, 32, 110, 117, 109, 98, 101, 114, 32, 111, 102, 32, 97, 114, 103, 117, 109, 101, 110, 116, 115, 32, 102, 111, 114, 32, 39, 103, 101, 116, 39, 32, 99, 111, 109, 109, 97, 110, 100]
}

/// The bytes of `msg_get_arity`.
pub fn msg_get_arity_vec() -> (r: Vec<u8>)
    ensures
        r@ == msg_get_arity(),
{
    let mut v: Vec<u8> = Vec::new();
    v.push(119);
    v.push(114);
    v.push(111);
    v.push(110);
    v.push(103);
    v.push(32);
    v.push(110);
    v.push(117);
    v.push(109);
    v.push(98);
    v.push(101);
    v.push(114);
    v.push(32);
    v.push(111);
    v.push(102);
    v.push(32);
    v.push(97);
    v.push(114);
    v.push(103);
    v.push(117);
    v.push(109);
    v.push(101);
    v.push(110);
    v.push(116);
    v.push(115);
    v.push(32);
    v.push(102);
    v.push(111);
    v.push(114);
    v.push(32);
    v.push(39);
    v.push(103);
    v.push(101);
    v.push(116);
    v.push(39);
    v.push(32);
    v.push(99);
    v.push(111);
    v.push(109);
    v.push(109);
    v.push(97);
    v.push(110);
    v.push(100);
    proof {
        assert(v@ =~= msg_get_arity());
    }
    v
}

/// Too few arguments to the echo command. (`wrong number of arguments for 'echo' command`)
pub open spec fn msg_echo_arity() -> Seq<u8> {
    seq![119u8, 114, 111, 110, 103, 32, 110, 117, 109, 98, 101, 114, 32, 111, 102, 32, 97, 114, 103, 117, 109, 101, 110, 116, 115, 32, 102, 111, 114, 32, 39, 101, 99, 104, 111, 39, 32, 99, 111, 109, 109, 97, 110, 100]
}

/// The bytes of `msg_echo_arity`.
pub fn msg_echo_arity_vec() -> (r: Vec<u8>)
    ensures
        r@ == msg_echo_arity(),
{
    let mut v: Vec<u8> = Vec::new();
    v.push(119);
    v.push(114);
    v.push(111);
    v.push(110);
    v.push(103);
    v.push(32);
    v.push(110);
    v.push(117);
    v.push(109);
    v.push(98);
    v.push(101);
    v.push(114);
    v.push(32);
    v.push(111);
    v.push(102);
    v.push(32);
    v.push(97);
    v.push(114);
    v.push(103);
    v.push(117);
    v.push(109);
    v.push(101);
    v.push(110);
    v.push(116);
    v.push(115);
    v.push(32);
    v.push(102);
    v.push(111);
    v.push(114);
    v.push(32);
    v.push(39);
    v.push(101);
    v.push(99);
    v.push(104);
    v.push(111);
    v.push(39);
    v.push(32);
    v.push(99);
    v.push(111);
    v.push(109);
    v.push(109);
    v.push(97);
    v.push(110);
    v.push(100);
    proof {
        assert(v@ =~= msg_echo_arity());
    }
    v
}

/// An option keyword other than the expiry option. (`option not supported`)
pub open spec fn msg_opt_not_supported() -> Seq<u8> {
    seq![111u8, 112, 116, 105, 111, 110, 32, 110, 111, 116, 32, 115, 117, 112, 112, 111, 114, 116, 101, 100]
}

/// The bytes of `msg_opt_not_supported`.
pub fn msg_opt_not_supported_vec() -> (r: Vec<u8>)
    ensures
        r@ == msg_opt_not_supported(),
{
    let mut v: Vec<u8> = Vec::new();
    v.push(111);
    v.push(112);
    v.push(116);
    v.push(105);
    v.push(111);
    v.push(110);
    v.push(32);
    v.push(110);
    v.push(111);
    v.push(116);
    v.push(32);
    v.push(115);
    v.push(117);
    v.push(112);
    v.push(112);
    v.push(111);
    v.push(114);
    v.push(116);
    v.push(101);
    v.push(100);
    proof {
        assert(v@ =~= msg_opt_not_supported());
    }
    v
}

/// A positional argument that is not a usable bulk string. (`argument is not a bulk string`)
pub open spec fn msg_arg_not_bulk() -> Seq<u8> {
    seq![97u8, 114, 103, 117, 109, 101, 110, 116, 32, 105, 115, 32, 110, 111, 116, 32, 97, 32, 98, 117, 108, 107, 32, 115, 116, 114, 105, 110, 103]
}

/// The bytes of `msg_arg_not_bulk`.
pub fn msg_arg_not_bulk_vec() -> (r: Vec<u8>)
    ensures
        r@ == msg_arg_not_bulk(),
{
    let mut v: Vec<u8> = Vec::new();
    v.push(97);
    v.push(114);
    v.push(103);
    v.push(117);
    v.push(109);
    v.push(101);
    v.push(110);
    v.push(116);
    v.push(32);
    v.push(105);
    v.push(115);
    v.push(32);
    v.push(110);
    v.push(111);
    v.push(116);
    v.push(32);
    v.push(97);
    v.push(32);
    v.push(98);
    v.push(117);
    v.push(108);
    v.push(107);
    v.push(32);
    v.push(115);
    v.push(116);
    v.push(114);
    v.push(105);
    v.push(110);
    v.push(103);
    proof {
        assert(v@ =~= msg_arg_not_bulk());
    }
    v
}

/// An option token of the wrong protocol type. (`option is not a bulk string`)
pub open spec fn msg_opt_not_bulk() -> Seq<u8> {
    seq![111u8, 112, 116, 105, 111, 110, 32, 105, 115, 32, 110, 111, 116, 32, 97, 32, 98, 117, 108, 107, 32, 115, 116, 114, 105, 110, 103]
}

/// The bytes of `msg_opt_not_bulk`.
pub fn msg_opt_not_bulk_vec() -> (r: Vec<u8>)
    ensures
        r@ == msg_opt_not_bulk(),
{
    let mut v: Vec<u8> = Vec::new();
    v.push(111);
    v.push(112);
    v.push(116);
    v.push(105);
    v.push(111);
    v.push(110);
    v.push(32);
    v.push(105);
    v.push(115);
    v.push(32);
    v.push(110);
    v.push(111);
    v.push(116);
    v.push(32);
    v.push(97);
    v.push(32);
    v.push(98);
    v.push(117);
    v.push(108);
    v.push(107);
    v.push(32);
    v.push(115);
    v.push(116);
    v.push(114);
    v.push(105);
    v.push(110);
    v.push(103);
    proof {
        assert(v@ =~= msg_opt_not_bulk());
    }
    v
}

/// A request that is not an array headed by a bulk string. (`unexpected command format`)
pub open spec fn msg_bad_request() -> Seq<u8> {
    seq![117u8, 110, 101, 120, 112, 101, 99, 116, 101, 100, 32, 99, 111, 109, 109, 97, 110, 100, 32, 102, 111, 114, 109, 97, 116]
}

/// The bytes of `msg_bad_request`.
pub fn msg_bad_request_vec() -> (r: Vec<u8>)
    ensures
        r@ == msg_bad_request(),
{
    let mut v: Vec<u8> = Vec::new();
    v.push(117);
    v.push(110);
    v.push(101);
    v.push(120);
    v.push(112);
    v.push(101);
    v.push(99);
    v.push(116);
    v.push(101);
    v.push(100);
    v.push(32);
    v.push(99);
    v.push(111);
    v.push(109);
    v.push(109);
    v.push(97);
    v.push(110);
    v.push(100);
    v.push(32);
    v.push(102);
    v.push(111);
    v.push(114);
    v.push(109);
    v.push(97);
    v.push(116);
    proof {
        assert(v@ =~= msg_bad_request());
    }
    v
}

/// Opening of the reply naming an unrecognized command.
pub open spec fn msg_unknown_prefix() -> Seq<u8> {
    seq![117u8, 110, 107, 110, 111, 119, 110, 32, 99, 111, 109, 109, 97, 110, 100, 32, 39]
}

/// The bytes of `msg_unknown_prefix`.
pub fn msg_unknown_prefix_vec() -> (r: Vec<u8>)
    ensures
        r@ == msg_unknown_prefix(),
{
    let mut v: Vec<u8> = Vec::new();
    v.push(117);
    v.push(110);
    v.push(107);
    v.push(110);
    v.push(111);
    v.push(119);
    v.push(110);
    v.push(32);
    v.push(99);
    v.push(111);
    v.push(109);
    v.push(109);
    v.push(97);
    v.push(110);
    v.push(100);
    v.push(32);
    v.push(39);
    proof {
        assert(v@ =~= msg_unknown_prefix());
    }
    v
}

/// The ping command name, lower-cased. (`ping`)
pub open spec fn cmd_ping() -> Seq<u8> {
    seq![112u8, 105, 110, 103]
}

/// The bytes of `cmd_ping`.
pub fn cmd_ping_vec() -> (r: Vec<u8>)
    ensures
        r@ == cmd_ping(),
{
    let mut v: Vec<u8> = Vec::new();
    v.push(112);
    v.push(105);
    v.push(110);
    v.push(103);
    proof {
        assert(v@ =~= cmd_ping());
    }
    v
}

/// The echo command name, lower-cased. (`echo`)
pub open spec fn cmd_echo() -> Seq<u8> {
    seq![101u8, 99, 104, 111]
}

/// The bytes of `cmd_echo`.
pub fn cmd_echo_vec() -> (r: Vec<u8>)
    ensures
        r@ == cmd_echo(),
{
    let mut v: Vec<u8> = Vec::new();
    v.push(101);
    v.push(99);
    v.push(104);
    v.push(111);
    proof {
        assert(v@ =~= cmd_echo());
    }
    v
}

/// The set command name, lower-cased. (`set`)
pub open spec fn cmd_set() -> Seq<u8> {
    seq![115u8, 101, 116]
}

/// The bytes of `cmd_set`.
pub fn cmd_set_vec() -> (r: Vec<u8>)
    ensures
        r@ == cmd_set(),
{
    let mut v: Vec<u8> = Vec::new();
    v.push(115);
    v.push(101);
    v.push(116);
    proof {
        assert(v@ =~= cmd_set());
    }
    v
}

/// The get command name, lower-cased. (`get`)
pub open spec fn cmd_get() -> Seq<u8> {
    seq![103u8, 101, 116]
}

/// The bytes of `cmd_get`.
pub fn cmd_get_vec() -> (r: Vec<u8>)
    ensures
        r@ == cmd_get(),
{
    let mut v: Vec<u8> = Vec::new();
    v.push(103);
    v.push(101);
    v.push(116);
    proof {
        assert(v@ =~= cmd_get());
    }
    v
}

/// The info command name, lower-cased. (`info`)
pub open spec fn cmd_info() -> Seq<u8> {
    seq![105u8, 110, 102, 111]
}

/// The bytes of `cmd_info`.
pub fn cmd_info_vec() -> (r: Vec<u8>)
    ensures
        r@ == cmd_info(),
{
    let mut v: Vec<u8> = Vec::new();
    v.push(105);
    v.push(110);
    v.push(102);
    v.push(111);
    proof {
        assert(v@ =~= cmd_info());
    }
    v
}

/// The millisecond-expiry option keyword, lower-cased. (`px`)
pub open spec fn opt_px() -> Seq<u8> {
    seq![112u8, 120]
}

/// The bytes of `opt_px`.
pub fn opt_px_vec() -> (r: Vec<u8>)
    ensures
        r@ == opt_px(),
{
    let mut v: Vec<u8> = Vec::new();
    v.push(112);
    v.push(120);
    proof {
        assert(v@ =~= opt_px());
    }
    v
}

/// The replication metadata of a process running as master.
pub open spec fn info_master() -> Seq<u8> {
    seq![114u8, 111, 108, 101, 58, 109, 97, 115, 116, 101, 114, 109, 97, 115, 116, 101, 114, 95, 114, 101, 112, 108, 105, 100, 58, 56, 51, 55, 49, 98, 52, 102, 98, 49, 49, 53, 53, 98, 55, 49, 102, 52, 97, 48, 52, 100, 51, 101, 49, 98, 99, 51, 101, 49, 56, 99, 52, 97, 57, 57, 48, 97, 101, 101, 98, 109, 97, 115, 116, 101, 114, 95, 114, 101, 112, 108, 95, 111, 102, 102, 115, 101, 116, 58, 48]
}

/// The bytes of `info_master`.
pub fn info_master_vec() -> (r: Vec<u8>)
    ensures
        r@ == info_master(),
{
    let mut v: Vec<u8> = Vec::new();
    v.push(114);
    v.push(111);
    v.push(108);
    v.push(101);
    v.push(58);
    v.push(109);
    v.push(97);
    v.push(115);
    v.push(116);
    v.push(101);
    v.push(114);
    v.push(109);
    v.push(97);
    v.push(115);
    v.push(116);
    v.push(101);
    v.push(114);
    v.push(95);
    v.push(114);
    v.push(101);
    v.push(112);
    v.push(108);
    v.push(105);
    v.push(100);
    v.push(58);
    v.push(56);
    v.push(51);
    v.push(55);
    v.push(49);
    v.push(98);
    v.push(52);
    v.push(102);
    v.push(98);
    v.push(49);
    v.push(49);
    v.push(53);
    v.push(53);
    v.push(98);
    v.push(55);
    v.push(49);
    v.push(102);
    v.push(52);
    v.push(97);
    v.push(48);
    v.push(52);
    v.push(100);
    v.push(51);
    v.push(101);
    v.push(49);
    v.push(98);
    v.push(99);
    v.push(51);
    v.push(101);
    v.push(49);
    v.push(56);
    v.push(99);
    v.push(52);
    v.push(97);
    v.push(57);
    v.push(57);
    v.push(48);
    v.push(97);
    v.push(101);
    v.push(101);
    v.push(98);
    v.push(109);
    v.push(97);
    v.push(115);
    v.push(116);
    v.push(101);
    v.push(114);
    v.push(95);
    v.push(114);
    v.push(101);
    v.push(112);
    v.push(108);
    v.push(95);
    v.push(111);
    v.push(102);
    v.push(102);
    v.push(115);
    v.push(101);
    v.push(116);
    v.push(58);
    v.push(48);
    proof {
        assert(v@ =~= info_master());
    }
    v
}

/// The replication metadata of a process running as replica.
pub open spec fn info_slave() -> Seq<u8> {
    seq![114u8, 111, 108, 101, 58, 115, 108, 97, 118, 101, 109, 97, 115, 116, 101, 114, 95, 114, 101, 112, 108, 105, 100, 58, 56, 51, 55, 49, 98, 52, 102, 98, 49, 49, 53, 53, 98, 55, 49, 102, 52, 97, 48, 52, 100, 51, 101, 49, 98, 99, 51, 101, 49, 56, 99, 52, 97, 57, 57, 48, 97, 101, 101, 98, 109, 97, 115, 116, 101, 114, 95, 114, 101, 112, 108, 95, 111, 102, 102, 115, 101, 116, 58, 48]
}

/// The bytes of `info_slave`.
pub fn info_slave_vec() -> (r: Vec<u8>)
    ensures
        r@ == info_slave(),
{
    let mut v: Vec<u8> = Vec::new();
    v.push(114);
    v.push(111);
    v.push(108);
    v.push(101);
    v.push(58);
    v.push(115);
    v.push(108);
    v.push(97);
    v.push(118);
    v.push(101);
    v.push(109);
    v.push(97);
    v.push(115);
    v.push(116);
    v.push(101);
    v.push(114);
    v.push(95);
    v.push(114);
    v.push(101);
    v.push(112);
    v.push(108);
    v.push(105);
    v.push(100);
    v.push(58);
    v.push(56);
    v.push(51);
    v.push(55);
    v.push(49);
    v.push(98);
    v.push(52);
    v.push(102);
    v.push(98);
    v.push(49);
    v.push(49);
    v.push(53);
    v.push(53);
    v.push(98);
    v.push(55);
    v.push(49);
    v.push(102);
    v.push(52);
    v.push(97);
    v.push(48);
    v.push(52);
    v.push(100);
    v.push(51);
    v.push(101);
    v.push(49);
    v.push(98);
    v.push(99);
    v.push(51);
    v.push(101);
    v.push(49);
    v.push(56);
    v.push(99);
    v.push(52);
    v.push(97);
    v.push(57);
    v.push(57);
    v.push(48);
    v.push(97);
    v.push(101);
    v.push(101);
    v.push(98);
    v.push(109);
    v.push(97);
    v.push(115);
    v.push(116);
    v.push(101);
    v.push(114);
    v.push(95);
    v.push(114);
    v.push(101);
    v.push(112);
    v.push(108);
    v.push(95);
    v.push(111);
    v.push(102);
    v.push(102);
    v.push(115);
    v.push(101);
    v.push(116);
    v.push(58);
    v.push(48);
    proof {
        assert(v@ =~= info_slave());
    }
    v
}

} // verus!
