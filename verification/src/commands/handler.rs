//! The command interpreter: one parsed command and its arguments against
//! the store, producing the reply value, and, for SAVE, the snapshot
//! bytes the caller must write. Argument-count errors become error
//! replies; nothing here closes a connection.

use vstd::prelude::*;

use crate::config::info_server::{spec_info_string, InfoServer};
use crate::errors::app_errors::{spec_error_message, AppError};
use crate::rdb;
use crate::resp::parser::{extract_set_command_args, spec_is_px_marker, Parser};
use crate::storage::{
    glob_to_regex_chars, regex_valid, spec_del_count, spec_exact_keys, spec_expired,
    spec_records_of, spec_regex_keys, ItemV, Storage,
};
use crate::strutil::{
    dec_chars, is_usize_digits, str_eq_string, u64_to_dec_string, usize_digits_val,
};

verus! {

/// What one dispatched command produced: the reply to serialize, and,
/// for SAVE, the snapshot bytes to write to disk.
pub struct DispatchOutcome {
    pub reply: Parser,
    pub save_bytes: Option<Vec<u8>>,
}

/// The storage engine is untouched.
pub open spec fn storage_unchanged(a: &Storage, b: &Storage) -> bool {
    a.items == b.items && a.snapshot == b.snapshot && a.dump_path == b.dump_path
}

/// The expiry a SET carries: the parsed `PX` count, or zero.
pub open spec fn spec_set_expiry(args: Seq<String>) -> nat {
    if args.len() > 3 && spec_is_px_marker(args[2]@) {
        usize_digits_val(args[3]@)
    } else {
        0
    }
}

/// Whether a SET's arguments carry the `PX` marker, in either letter
/// case.
pub open spec fn spec_set_has_px(args: Seq<String>) -> bool {
    args.len() > 3 && spec_is_px_marker(args[2]@)
}

/// Runs one command against the store and builds its reply, following
/// the command table: PING, ECHO, SET, GET, DEL, KEYS, INFO, REPLCONF,
/// PSYNC, SAVE, and the unknown-command error.
pub fn dispatch_command(
    command: &String,
    args: Vec<String>,
    storage: &mut Storage,
    info: &InfoServer,
    now_ms: u64,
) -> (r: DispatchOutcome)
    requires
        old(storage).wf(),
        old(storage).snapshot.change_count + old(storage).items@.len() < u32::MAX,
        old(storage).items@.len() <= u16::MAX,
    ensures
        final(storage).wf(),
        command@ == "ping"@ ==> (r.reply matches Parser::SimpleString(s) && s@ == "PONG"@
            && storage_unchanged(final(storage), old(storage)) && r.save_bytes is None),
        command@ != "ping"@ && command@ == "echo"@ ==> storage_unchanged(final(storage), old(storage)) && r.save_bytes
            is None && (if args@.len() > 0 {
            r.reply matches Parser::SimpleString(s) && s@ == args@[0]@
        } else {
            r.reply matches Parser::SimpleError(s) && s@ == spec_error_message(
                &AppError::WrongNumberOfArgumentsError,
            )
        }),
        command@ != "ping"@ && command@ != "echo"@ && command@ == "set"@ ==> r.save_bytes is None && {
            if args@.len() < 2 {
                r.reply matches Parser::SimpleError(s) && s@ == spec_error_message(
                    &AppError::WrongNumberOfArgumentsError,
                ) && storage_unchanged(final(storage), old(storage))
            } else if spec_set_has_px(args@) && !is_usize_digits(args@[3]@) {
                r.reply matches Parser::SimpleError(s) && s@ == spec_error_message(
                    &AppError::InvalidExpirationValue,
                ) && storage_unchanged(final(storage), old(storage))
            } else {
                &&& r.reply matches Parser::SimpleString(s) && s@ == "OK"@
                &&& final(storage).contents() == old(storage).contents().insert(
                    args@[0]@,
                    ItemV {
                        value: args@[1]@,
                        created: now_ms,
                        expires: spec_set_expiry(args@) as usize,
                    },
                )
                &&& final(storage).snapshot.change_count == old(storage).snapshot.change_count + 1
            }
        },
        command@ != "ping"@ && command@ != "echo"@ && command@ != "set"@ && command@ == "get"@ ==> r.save_bytes is None && storage_unchanged(
            final(storage),
            old(storage),
        ) && (if args@.len() == 0 {
            r.reply matches Parser::SimpleError(s) && s@ == spec_error_message(
                &AppError::WrongNumberOfArgumentsError,
            )
        } else {
            if old(storage).contents().contains_key(args@[0]@) && !spec_expired(
                old(storage).contents()[args@[0]@],
                now_ms,
            ) {
                r.reply matches Parser::SimpleString(s) && s@ == old(storage).contents()[
                    args@[0]@].value
            } else {
                r.reply is NullBulkString
            }
        }),
        command@ != "ping"@ && command@ != "echo"@ && command@ != "set"@ && command@ != "get"@ && command@ == "del"@ ==> r.save_bytes is None && (if args@.len() == 0 {
            r.reply matches Parser::SimpleError(s) && s@ == spec_error_message(
                &AppError::WrongNumberOfArgumentsError,
            ) && storage_unchanged(final(storage), old(storage))
        } else {
            &&& r.reply matches Parser::Integer(sg, n) && sg is None && n == spec_del_count(
                old(storage).contents(),
                args@.map_values(|k: String| k@),
            )
            &&& final(storage).contents() == old(storage).contents().remove_keys(
                args@.map_values(|k: String| k@).to_set(),
            )
        }),
        command@ != "ping"@ && command@ != "echo"@ && command@ != "set"@ && command@ != "get"@ && command@ != "del"@ && command@ == "keys"@ ==> r.save_bytes is None && storage_unchanged(
            final(storage),
            old(storage),
        ) && (if args@.len() != 1 {
            r.reply matches Parser::SimpleError(s) && s@ == spec_error_message(
                &AppError::WrongNumberOfArgumentsError,
            )
        } else if !args@[0]@.contains('*') {
            r.reply matches Parser::Array(ks) && ks@.map_values(|k: String| k@) == spec_exact_keys(
                old(storage).items@,
                args@[0]@,
            )
        } else if regex_valid(glob_to_regex_chars(args@[0]@)) {
            r.reply matches Parser::Array(ks) && ks@.map_values(|k: String| k@) == spec_regex_keys(
                old(storage).items@,
                glob_to_regex_chars(args@[0]@),
            )
        } else {
            r.reply matches Parser::SimpleError(s) && s@ == spec_error_message(
                &AppError::InvalidPattern,
            )
        }),
        command@ != "ping"@ && command@ != "echo"@ && command@ != "set"@ && command@ != "get"@ && command@ != "del"@ && command@ != "keys"@ && command@ == "info"@ ==> r.save_bytes is None && storage_unchanged(
            final(storage),
            old(storage),
        ) && (if args@.len() == 0 {
            r.reply matches Parser::SimpleError(s) && s@ == spec_error_message(
                &AppError::WrongNumberOfArgumentsError,
            )
        } else {
            r.reply matches Parser::BulkString(s) && s@ == spec_info_string(info)
        }),
        command@ != "ping"@ && command@ != "echo"@ && command@ != "set"@ && command@ != "get"@ && command@ != "del"@ && command@ != "keys"@ && command@ != "info"@ && command@ == "replconf"@ ==> (r.reply matches Parser::SimpleString(s) && s@ == "OK"@
            && storage_unchanged(final(storage), old(storage)) && r.save_bytes is None),
        command@ != "ping"@ && command@ != "echo"@ && command@ != "set"@ && command@ != "get"@ && command@ != "del"@ && command@ != "keys"@ && command@ != "info"@ && command@ != "replconf"@ && command@ == "psync"@ ==> (r.reply matches Parser::SimpleString(s) && s@ == "FULLRESYNC "@
            + info.master_replid@ + " "@ + dec_chars(info.master_repl_offset as nat)
            && storage_unchanged(final(storage), old(storage)) && r.save_bytes is None),
        command@ != "ping"@ && command@ != "echo"@ && command@ != "set"@ && command@ != "get"@ && command@ != "del"@ && command@ != "keys"@ && command@ != "info"@ && command@ != "replconf"@ && command@ != "psync"@ && command@ == "save"@ ==> (r.reply matches Parser::SimpleString(s) && s@ == "OK"@
            && storage_unchanged(final(storage), old(storage)) && (r.save_bytes matches Some(bytes)
            && bytes@ == rdb::spec_encode(spec_records_of(old(storage).items@, now_ms)))),
        (command@ != "ping"@ && command@ != "echo"@ && command@ != "set"@ && command@ != "get"@
            && command@ != "del"@ && command@ != "keys"@ && command@ != "info"@ && command@
            != "replconf"@ && command@ != "psync"@ && command@ != "save"@) ==> (r.reply matches
            Parser::SimpleError(s) && s@ == "Unknown command: "@ + command@ && storage_unchanged(
            final(storage),
            old(storage),
        ) && r.save_bytes is None),
{
    if str_eq_string(command, "ping") {
        DispatchOutcome { reply: Parser::SimpleString(String::from_str("PONG")), save_bytes: None }
    } else if str_eq_string(command, "echo") {
        if args.len() > 0 {
            DispatchOutcome { reply: Parser::SimpleString(args[0].clone()), save_bytes: None }
        } else {
            DispatchOutcome {
                reply: Parser::SimpleError(AppError::WrongNumberOfArgumentsError.to_message()),
                save_bytes: None,
            }
        }
    } else if str_eq_string(command, "set") {
        match extract_set_command_args(args) {
            Ok((key, value, exp)) => {
                storage.set(key, value, exp, now_ms);
                DispatchOutcome {
                    reply: Parser::SimpleString(String::from_str("OK")),
                    save_bytes: None,
                }
            },
            Err(e) => DispatchOutcome {
                reply: Parser::SimpleError(e.to_message()),
                save_bytes: None,
            },
        }
    } else if str_eq_string(command, "get") {
        if args.len() < 1 {
            DispatchOutcome {
                reply: Parser::SimpleError(AppError::WrongNumberOfArgumentsError.to_message()),
                save_bytes: None,
            }
        } else {
            let reply = match storage.get(args[0].as_str(), now_ms) {
                Some(item) => Parser::SimpleString(item.value.clone()),
                None => Parser::NullBulkString,
            };
            DispatchOutcome { reply, save_bytes: None }
        }
    } else if str_eq_string(command, "del") {
        if args.len() < 1 {
            DispatchOutcome {
                reply: Parser::SimpleError(AppError::WrongNumberOfArgumentsError.to_message()),
                save_bytes: None,
            }
        } else {
            let n = storage.del(&args);
            DispatchOutcome { reply: Parser::Integer(None, n), save_bytes: None }
        }
    } else if str_eq_string(command, "keys") {
        if args.len() != 1 {
            DispatchOutcome {
                reply: Parser::SimpleError(AppError::WrongNumberOfArgumentsError.to_message()),
                save_bytes: None,
            }
        } else {
            let reply = match storage.keys(args[0].as_str()) {
                Ok(ks) => Parser::Array(ks),
                Err(e) => Parser::SimpleError(e.to_message()),
            };
            DispatchOutcome { reply, save_bytes: None }
        }
    } else if str_eq_string(command, "info") {
        if args.len() < 1 {
            DispatchOutcome {
                reply: Parser::SimpleError(AppError::WrongNumberOfArgumentsError.to_message()),
                save_bytes: None,
            }
        } else {
            DispatchOutcome {
                reply: Parser::BulkString(info.get_info_string()),
                save_bytes: None,
            }
        }
    } else if str_eq_string(command, "replconf") {
        DispatchOutcome { reply: Parser::SimpleString(String::from_str("OK")), save_bytes: None }
    } else if str_eq_string(command, "psync") {
        let mut s = String::from_str("FULLRESYNC ");
        s.append(info.master_replid.as_str());
        s.append(" ");
        let offset = u64_to_dec_string(info.master_repl_offset as u64);
        s.append(offset.as_str());
        DispatchOutcome { reply: Parser::SimpleString(s), save_bytes: None }
    } else if str_eq_string(command, "save") {
        let bytes = storage.save_rdb(now_ms);
        DispatchOutcome {
            reply: Parser::SimpleString(String::from_str("OK")),
            save_bytes: Some(bytes),
        }
    } else {
        let mut m = String::from_str("Unknown command: ");
        m.append(command.as_str());
        DispatchOutcome { reply: Parser::SimpleError(m), save_bytes: None }
    }
}

} // verus!
