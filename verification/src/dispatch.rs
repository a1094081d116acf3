//! The command dispatcher: interprets one decoded request as a command
//! name with positional arguments, validates arity, and drives the
//! storage engine. Command names are matched case-insensitively. The
//! caller supplies the current time in milliseconds; expiry options are
//! resolved to an absolute time at the moment of the write.

use vstd::prelude::*;
use crate::bytes::{dec_val, is_digit, lower_seq};
use crate::codec::{models_of, lemma_models_of, ReplyModel, ReplyValue};
use crate::messages::{
    cmd_echo, cmd_echo_vec, cmd_get, cmd_get_vec, cmd_info, cmd_info_vec, cmd_ping, cmd_ping_vec,
    cmd_set, cmd_set_vec, info_master, info_master_vec, info_slave, info_slave_vec,
    msg_arg_not_bulk, msg_arg_not_bulk_vec, msg_bad_request, msg_bad_request_vec, msg_echo_arity,
    msg_echo_arity_vec, msg_get_arity, msg_get_arity_vec, msg_ok, msg_ok_vec,
    msg_opt_not_bulk, msg_opt_not_bulk_vec, msg_opt_not_supported, msg_opt_not_supported_vec,
    msg_pong, msg_pong_vec, msg_set_arity, msg_set_arity_vec, msg_unknown_prefix,
    msg_unknown_prefix_vec, opt_px, opt_px_vec,
};
use crate::store::{
    map_after_read, read_result, EntryModel, Store,
};

verus! {

/// Why a decoded value could not be read as a command request.
#[derive(Debug, PartialEq, Eq, Clone, Copy)]
pub enum RequestError {
    /// The top-level value is not an array.
    NotArray,
    /// The array holds no command name at all.
    EmptyRequest,
    /// The first element is not a bulk string.
    NameNotBulk,
}

/// What `extract_command` yields on a request model: the command name's
/// bytes and the argument values, or the reason the request is unusable.
pub open spec fn spec_extract(m: ReplyModel) -> Result<(Seq<u8>, Seq<ReplyModel>), RequestError> {
    match m {
        ReplyModel::Array(items) => if items.len() == 0 {
            Err(RequestError::EmptyRequest)
        } else {
            match items[0] {
                ReplyModel::Bulk(name) => Ok((name, items.drop_first())),
                _ => Err(RequestError::NameNotBulk),
            }
        },
        _ => Err(RequestError::NotArray),
    }
}

/// Removing the head of a value sequence removes the head of its models.
proof fn lemma_models_drop(s: Seq<ReplyValue>)
    requires
        s.len() > 0,
    ensures
        models_of(s.drop_first()) == models_of(s).drop_first(),
{
    lemma_models_of(s);
    lemma_models_of(s.drop_first());
    assert forall|i: int| 0 <= i < s.len() - 1 implies models_of(s.drop_first())[i] == models_of(
        s,
    ).drop_first()[i] by {
        assert(s.drop_first()[i] == s[i + 1]);
    }
    assert(models_of(s.drop_first()) =~= models_of(s).drop_first());
}

/// Take the payload out of a bulk-string value; any other protocol type
/// is refused.
pub fn unpack_bulk_string(value: ReplyValue) -> (r: Result<Vec<u8>, RequestError>)
    ensures
        match r {
            Ok(b) => value@ == ReplyModel::Bulk(b@),
            Err(e) => !(value@ is Bulk) && e == RequestError::NameNotBulk,
        },
{
    match value {
        ReplyValue::Bulk(b) => Ok(b),
        _ => Err(RequestError::NameNotBulk),
    }
}

/// Split a decoded request into its command name and its arguments.
pub fn extract_command(value: ReplyValue) -> (r: Result<(Vec<u8>, Vec<ReplyValue>), RequestError>)
    ensures
        match r {
            Ok(p) => spec_extract(value@) == Ok::<_, RequestError>((p.0@, models_of(p.1@))),
            Err(e) => spec_extract(value@) == Err::<(Seq<u8>, Seq<ReplyModel>), _>(e),
        },
{
    match value {
        ReplyValue::Array(mut items) => {
            if items.len() == 0 {
                proof {
                    lemma_models_of(items@);
                }
                return Err(RequestError::EmptyRequest);
            }
            let ghost items0 = items@;
            proof {
                lemma_models_of(items0);
            }
            let first = items.remove(0);
            proof {
                assert(items@ =~= items0.drop_first());
                lemma_models_drop(items0);
            }
            match unpack_bulk_string(first) {
                Ok(name) => Ok((name, items)),
                Err(e) => Err(e),
            }
        },
        _ => Err(RequestError::NotArray),
    }
}

/// The absolute expiry of a write made at `now` with a relative expiry of
/// `ms` milliseconds, saturating at the largest representable time.
pub open spec fn expiry_at(now: u64, ms: u64) -> u64 {
    if now + ms <= u64::MAX {
        (now + ms) as u64
    } else {
        u64::MAX
    }
}

/// A byte string usable as a millisecond count: non-empty, all decimal
/// digits, and small enough for a `u64`.
pub open spec fn parseable_ms(s: Seq<u8>) -> bool {
    s.len() > 0 && (forall|i: int| 0 <= i < s.len() ==> is_digit(s[i])) && dec_val(s) <= u64::MAX
}

/// The set command on argument models: the reply it produces and the
/// mapping it leaves behind. Arity under two is refused; a third argument
/// must be the expiry option keyword, followed by a digit-only
/// millisecond count; further arguments are ignored. A key or value of
/// the wrong protocol type draws the same reply as an unusable option
/// value.
pub open spec fn spec_handle_set(
    args: Seq<ReplyModel>,
    m: Map<Seq<u8>, EntryModel>,
    now: u64,
) -> (ReplyModel, Map<Seq<u8>, EntryModel>) {
    if args.len() < 2 {
        (ReplyModel::Error(msg_set_arity()), m)
    } else {
        match (args[0], args[1]) {
            (ReplyModel::Bulk(k), ReplyModel::Bulk(v)) => if args.len() == 2 {
                (
                    ReplyModel::Status(msg_ok()),
                    m.insert(k, EntryModel { value: v, expires_at: None }),
                )
            } else {
                match args[2] {
                    ReplyModel::Bulk(opt) => if lower_seq(opt) == opt_px() {
                        if args.len() >= 4 {
                            match args[3] {
                                ReplyModel::Bulk(ms) => if parseable_ms(ms) {
                                    (
                                        ReplyModel::Status(msg_ok()),
                                        m.insert(
                                            k,
                                            EntryModel {
                                                value: v,
                                                expires_at: Some(
                                                    expiry_at(now, dec_val(ms) as u64),
                                                ),
                                            },
                                        ),
                                    )
                                } else {
                                    (ReplyModel::Error(msg_arg_not_bulk()), m)
                                },
                                _ => (ReplyModel::Error(msg_arg_not_bulk()), m),
                            }
                        } else {
                            (ReplyModel::Error(msg_arg_not_bulk()), m)
                        }
                    } else {
                        (ReplyModel::Error(msg_opt_not_supported()), m)
                    },
                    _ => (ReplyModel::Error(msg_opt_not_bulk()), m),
                }
            },
            _ => (ReplyModel::Error(msg_arg_not_bulk()), m),
        }
    }
}

/// Run the set command: `set key value [px milliseconds]`.
pub fn handle_set(args: Vec<ReplyValue>, store: &mut Store, now: u64) -> (r: ReplyValue)
    requires
        old(store).wf(),
    ensures
        final(store).wf(),
        r@ == spec_handle_set(models_of(args@), old(store)@, now).0,
        final(store)@ == spec_handle_set(models_of(args@), old(store)@, now).1,
{
    let ghost ms0 = models_of(args@);
    proof {
        lemma_models_of(args@);
    }
    if args.len() < 2 {
        return ReplyValue::Error(msg_set_arity_vec());
    }
    let mut rest = args;
    let ghost s0 = rest@;
    let a0 = rest.remove(0);
    proof {
        assert(s0.remove(0) =~= s0.drop_first());
        lemma_models_drop(s0);
    }
    let ghost s1 = rest@;
    let a1 = rest.remove(0);
    proof {
        assert(s1.remove(0) =~= s1.drop_first());
        lemma_models_drop(s1);
        lemma_models_of(rest@);
    }
    let key = match unpack_bulk_string(a0) {
        Ok(b) => b,
        Err(_) => {
            return ReplyValue::Error(msg_arg_not_bulk_vec());
        },
    };
    let value = match unpack_bulk_string(a1) {
        Ok(b) => b,
        Err(_) => {
            return ReplyValue::Error(msg_arg_not_bulk_vec());
        },
    };
    if rest.len() == 0 {
        store.write(key, value, None);
        return ReplyValue::Status(msg_ok_vec());
    }
    let ghost s2 = rest@;
    let a2 = rest.remove(0);
    proof {
        assert(s2.remove(0) =~= s2.drop_first());
        lemma_models_drop(s2);
        lemma_models_of(rest@);
    }
    let opt = match unpack_bulk_string(a2) {
        Ok(b) => b,
        Err(_) => {
            return ReplyValue::Error(msg_opt_not_bulk_vec());
        },
    };
    let lowered = crate::bytes::to_lower(&opt);
    let px = opt_px_vec();
    if !crate::bytes::bytes_eq(&lowered, &px) {
        return ReplyValue::Error(msg_opt_not_supported_vec());
    }
    if rest.len() == 0 {
        return ReplyValue::Error(msg_arg_not_bulk_vec());
    }
    let ghost s3 = rest@;
    let a3 = rest.remove(0);
    proof {
        assert(s3.remove(0) =~= s3.drop_first());
        lemma_models_drop(s3);
    }
    let msarg = match unpack_bulk_string(a3) {
        Ok(b) => b,
        Err(_) => {
            return ReplyValue::Error(msg_arg_not_bulk_vec());
        },
    };
    let parsed = match crate::bytes::parse_u64(&msarg) {
        Some(n) => n,
        None => {
            return ReplyValue::Error(msg_arg_not_bulk_vec());
        },
    };
    let exp: u64 = if parsed <= u64::MAX - now {
        now + parsed
    } else {
        u64::MAX
    };
    store.write(key, value, Some(exp));
    ReplyValue::Status(msg_ok_vec())
}

/// The get command on argument models: the reply it produces and the
/// mapping it leaves behind (an expired entry observed by the read is
/// evicted). A missing key and a key of the wrong protocol type both
/// draw the null reply.
pub open spec fn spec_handle_get(
    args: Seq<ReplyModel>,
    m: Map<Seq<u8>, EntryModel>,
    now: u64,
) -> (ReplyModel, Map<Seq<u8>, EntryModel>) {
    if args.len() < 1 {
        (ReplyModel::Error(msg_get_arity()), m)
    } else {
        match args[0] {
            ReplyModel::Bulk(k) => (
                match read_result(m, k, now) {
                    Some(v) => ReplyModel::Bulk(v),
                    None => ReplyModel::Null,
                },
                map_after_read(m, k, now),
            ),
            _ => (ReplyModel::Null, m),
        }
    }
}

/// Run the get command: `get key`.
pub fn handle_get(args: Vec<ReplyValue>, store: &mut Store, now: u64) -> (r: ReplyValue)
    requires
        old(store).wf(),
    ensures
        final(store).wf(),
        r@ == spec_handle_get(models_of(args@), old(store)@, now).0,
        final(store)@ == spec_handle_get(models_of(args@), old(store)@, now).1,
{
    proof {
        lemma_models_of(args@);
    }
    if args.len() == 0 {
        return ReplyValue::Error(msg_get_arity_vec());
    }
    match &args[0] {
        ReplyValue::Bulk(k) => {
            match store.read(k, now) {
                Some(v) => ReplyValue::Bulk(v),
                None => ReplyValue::Null,
            }
        },
        _ => ReplyValue::Null,
    }
}

/// The replication metadata payload: the process's role, and fixed
/// replication id and offset placeholders.
pub open spec fn info_payload(is_replica: bool) -> Seq<u8> {
    if is_replica {
        info_slave()
    } else {
        info_master()
    }
}

/// Run the info command: a bulk reply with the replication metadata.
pub fn handle_info(is_replica: bool) -> (r: ReplyValue)
    ensures
        r@ == ReplyModel::Bulk(info_payload(is_replica)),
{
    if is_replica {
        ReplyValue::Bulk(info_slave_vec())
    } else {
        ReplyValue::Bulk(info_master_vec())
    }
}

/// One dispatch on a request model: the reply sent back and the mapping
/// left behind. An unusable request draws a fixed error reply; an
/// unrecognized command draws an error reply naming it.
pub open spec fn spec_dispatch(
    req: ReplyModel,
    m: Map<Seq<u8>, EntryModel>,
    now: u64,
    is_replica: bool,
) -> (ReplyModel, Map<Seq<u8>, EntryModel>) {
    match spec_extract(req) {
        Err(_) => (ReplyModel::Error(msg_bad_request()), m),
        Ok((name, args)) => {
            let lname = lower_seq(name);
            if lname == cmd_ping() {
                (ReplyModel::Status(msg_pong()), m)
            } else if lname == cmd_echo() {
                if args.len() >= 1 {
                    (args[0], m)
                } else {
                    (ReplyModel::Error(msg_echo_arity()), m)
                }
            } else if lname == cmd_set() {
                spec_handle_set(args, m, now)
            } else if lname == cmd_get() {
                spec_handle_get(args, m, now)
            } else if lname == cmd_info() {
                (ReplyModel::Bulk(info_payload(is_replica)), m)
            } else {
                (ReplyModel::Error(msg_unknown_prefix() + lname + seq![39u8]), m)
            }
        },
    }
}

/// Interpret one decoded request, run it against the store, and produce
/// the reply to send back.
pub fn dispatch(req: ReplyValue, store: &mut Store, now: u64, is_replica: bool) -> (r: ReplyValue)
    requires
        old(store).wf(),
    ensures
        final(store).wf(),
        r@ == spec_dispatch(req@, old(store)@, now, is_replica).0,
        final(store)@ == spec_dispatch(req@, old(store)@, now, is_replica).1,
{
    let (name, mut args) = match extract_command(req) {
        Ok(p) => p,
        Err(_) => {
            return ReplyValue::Error(msg_bad_request_vec());
        },
    };
    proof {
        lemma_models_of(args@);
    }
    let lname = crate::bytes::to_lower(&name);
    if crate::bytes::bytes_eq(&lname, &cmd_ping_vec()) {
        ReplyValue::Status(msg_pong_vec())
    } else if crate::bytes::bytes_eq(&lname, &cmd_echo_vec()) {
        if args.len() >= 1 {
            let first = args.remove(0);
            first
        } else {
            ReplyValue::Error(msg_echo_arity_vec())
        }
    } else if crate::bytes::bytes_eq(&lname, &cmd_set_vec()) {
        handle_set(args, store, now)
    } else if crate::bytes::bytes_eq(&lname, &cmd_get_vec()) {
        handle_get(args, store, now)
    } else if crate::bytes::bytes_eq(&lname, &cmd_info_vec()) {
        handle_info(is_replica)
    } else {
        let mut msg = msg_unknown_prefix_vec();
        let ghost pre = msg@;
        let mut i: usize = 0;
        while i < lname.len()
            invariant
                i <= lname.len(),
                msg@ =~= pre + lname@.take(i as int),
            decreases lname.len() - i,
        {
            msg.push(lname[i]);
            assert(msg@ =~= pre + lname@.take(i + 1));
            i = i + 1;
        }
        assert(lname@.take(lname@.len() as int) =~= lname@);
        msg.push(39);
        proof {
            assert(msg@ =~= msg_unknown_prefix() + lower_seq(name@) + seq![39u8]);
        }
        ReplyValue::Error(msg)
    }
}

} // verus!

