//! The command interpreter: one line of text in, one response line out,
//! with the store updated accordingly. The exact behaviour of every
//! command is pinned down by the `step` specification.

use vstd::prelude::*;
use vstd::string::StringExecFns;
use crate::store::{InMemoryDB, EntryModel, is_expired, expiry};
use crate::text::{tokens, views, joined, all_digits, dec_value, tokenize, join_range, parse_u64, str_eq};

verus! {

/// Whether serde_json accepts `s` as a JSON document.
pub uninterp spec fn json_valid(s: Seq<char>) -> bool;

/// The compact rendering serde_json gives a parsed JSON document.
pub uninterp spec fn json_canon(s: Seq<char>) -> Seq<char>;

/// Relies on serde_json::from_str::<Value> to decide whether `s` is valid
/// JSON, and on serde_json::Value's Display (via to_string) to render the
/// parsed document in compact form. With the default map representation
/// both depend on the text alone. The compact rendering holds no raw
/// newline: the serializer escapes every control character inside strings
/// and writes no separator of its own, so each response embedding it still
/// ends in exactly one newline.
#[verifier::external_body]
fn parse_and_canon(s: &str) -> (r: Option<String>)
    ensures
        (r is Some) == json_valid(s@),
        match r {
            Some(c) => c@ == json_canon(s@) && forall|i: int|
                0 <= i < c@.len() ==> c@[i] != '\n',
            None => true,
        },
{
    match serde_json::from_str::<serde_json::Value>(s) {
        Ok(v) => Some(v.to_string()),
        Err(_) => None,
    }
}

/// A token that reads as a decimal time-to-live.
pub open spec fn is_ttl_token(t: Seq<char>) -> bool {
    t.len() > 0 && all_digits(t) && dec_value(t) <= u64::MAX
}

/// The value text and time-to-live of a `set` command with token list
/// `ts`: the last token is the time-to-live exactly when there are at
/// least two tokens after the key and it reads as a non-negative integer;
/// the value is the remaining tokens joined by single spaces. (When the
/// value's own last word is numeric, it is thus read as a time-to-live —
/// an inherent ambiguity of the whitespace protocol.)
pub open spec fn set_value_text(ts: Seq<Seq<char>>) -> Seq<char> {
    if ts.len() > 3 && is_ttl_token(ts.last()) {
        joined(ts.subrange(2, ts.len() - 1))
    } else {
        joined(ts.subrange(2, ts.len() as int))
    }
}

/// The time-to-live of a `set` command with token list `ts`, if any.
pub open spec fn set_ttl(ts: Seq<Seq<char>>) -> Option<u64> {
    if ts.len() > 3 && is_ttl_token(ts.last()) {
        Some(dec_value(ts.last()) as u64)
    } else {
        None
    }
}

pub open spec fn resp_invalid() -> Seq<char> {
    "Invalid command\n"@
}

pub open spec fn resp_usage_set() -> Seq<char> {
    "Usage: set <key> <json_value> [ttl]\n"@
}

pub open spec fn resp_invalid_json() -> Seq<char> {
    "Invalid JSON format\n"@
}

pub open spec fn resp_set_ok(k: Seq<char>, v: Seq<char>) -> Seq<char> {
    "Set key '"@ + k + "' with JSON value '"@ + v + "'\n"@
}

pub open spec fn resp_usage_get() -> Seq<char> {
    "Usage: get <key>\n"@
}

pub open spec fn resp_get_found(k: Seq<char>, v: Seq<char>) -> Seq<char> {
    "Value for '"@ + k + "': "@ + v + "\n"@
}

pub open spec fn resp_get_missing(k: Seq<char>) -> Seq<char> {
    "Key '"@ + k + "' not found or expired\n"@
}

pub open spec fn resp_usage_delete() -> Seq<char> {
    "Usage: delete <key>\n"@
}

pub open spec fn resp_deleted(k: Seq<char>) -> Seq<char> {
    "Deleted key '"@ + k + "'\n"@
}

pub open spec fn resp_delete_missing(k: Seq<char>) -> Seq<char> {
    "Key '"@ + k + "' not found\n"@
}

pub open spec fn resp_goodbye() -> Seq<char> {
    "Goodbye!\n"@
}

pub open spec fn resp_unknown() -> Seq<char> {
    "Unknown command\n"@
}

/// The response to a `set` command and the store it leaves behind.
pub open spec fn step_set(ts: Seq<Seq<char>>, m: Map<Seq<char>, EntryModel>, now: u64) -> (Seq<
    char,
>, Map<Seq<char>, EntryModel>) {
    if ts.len() < 3 {
        (resp_usage_set(), m)
    } else {
        let vs = set_value_text(ts);
        if !json_valid(vs) {
            (resp_invalid_json(), m)
        } else {
            let canon = json_canon(vs);
            let e = EntryModel {
                value: canon,
                expires_at: match set_ttl(ts) {
                    Some(d) => Some(expiry(now, d)),
                    None => None,
                },
            };
            (resp_set_ok(ts[1], canon), m.insert(ts[1], e))
        }
    }
}

/// The response to a `get` command and the store it leaves behind.
pub open spec fn step_get(ts: Seq<Seq<char>>, m: Map<Seq<char>, EntryModel>, now: u64) -> (Seq<
    char,
>, Map<Seq<char>, EntryModel>) {
    if ts.len() < 2 {
        (resp_usage_get(), m)
    } else if m.contains_key(ts[1]) && !is_expired(m[ts[1]], now) {
        (resp_get_found(ts[1], m[ts[1]].value), m)
    } else {
        (resp_get_missing(ts[1]), m.remove(ts[1]))
    }
}

/// The response to a `delete` command and the store it leaves behind. An
/// already-expired entry is reported not-found like an absent one, but is
/// removed all the same.
pub open spec fn step_delete(ts: Seq<Seq<char>>, m: Map<Seq<char>, EntryModel>, now: u64) -> (Seq<
    char,
>, Map<Seq<char>, EntryModel>) {
    if ts.len() < 2 {
        (resp_usage_delete(), m)
    } else if m.contains_key(ts[1]) && !is_expired(m[ts[1]], now) {
        (resp_deleted(ts[1]), m.remove(ts[1]))
    } else {
        (resp_delete_missing(ts[1]), m.remove(ts[1]))
    }
}

/// What one command line does to a store at time `now`: the response text
/// and the store left behind, selected by the first token.
pub open spec fn step(ts: Seq<Seq<char>>, m: Map<Seq<char>, EntryModel>, now: u64) -> (Seq<
    char,
>, Map<Seq<char>, EntryModel>) {
    if ts.len() == 0 {
        (resp_invalid(), m)
    } else if ts[0] == "set"@ {
        step_set(ts, m, now)
    } else if ts[0] == "get"@ {
        step_get(ts, m, now)
    } else if ts[0] == "delete"@ {
        step_delete(ts, m, now)
    } else if ts[0] == "exit"@ {
        (resp_goodbye(), m)
    } else {
        (resp_unknown(), m)
    }
}

/// Executes one command line against the store at time `now` and returns
/// the response, exactly as `step` prescribes on the line's tokens.
pub fn process_command(command: &str, db: &mut InMemoryDB, now: u64) -> (r: String)
    requires
        old(db).wf(),
    ensures
        final(db).wf(),
        r@ == step(tokens(command@), old(db)@, now).0,
        final(db)@ == step(tokens(command@), old(db)@, now).1,
{
    let parts = tokenize(command);
    let ghost ts = tokens(command@);
    if parts.len() == 0 {
        return "Invalid command\n".to_owned();
    }
    let op = &parts[0];
    if str_eq(op.as_str(), "set") {
        if parts.len() < 3 {
            return "Usage: set <key> <json_value> [ttl]\n".to_owned();
        }
        let mut ttl: Option<u64> = None;
        let mut vend = parts.len();
        if parts.len() > 3 {
            match parse_u64(parts[parts.len() - 1].as_str()) {
                Some(d) => {
                    ttl = Some(d);
                    vend = parts.len() - 1;
                },
                None => {},
            }
        }
        proof {
            assert(ts.last() == views(parts@).last());
            assert(ttl == set_ttl(ts));
        }
        let value_text = join_range(&parts, 2, vend);
        proof {
            assert(value_text@ == set_value_text(ts));
        }
        match parse_and_canon(value_text.as_str()) {
            None => "Invalid JSON format\n".to_owned(),
            Some(canon) => {
                let key = parts[1].clone();
                let mut r: String = "Set key '".to_owned();
                r.append(key.as_str());
                r.append("' with JSON value '");
                r.append(canon.as_str());
                r.append("'\n");
                db.set(key, canon, ttl, now);
                proof {
                    assert(r@ =~= resp_set_ok(ts[1], json_canon(set_value_text(ts))));
                }
                r
            },
        }
    } else if str_eq(op.as_str(), "get") {
        if parts.len() < 2 {
            return "Usage: get <key>\n".to_owned();
        }
        let key = &parts[1];
        match db.get(key.as_str(), now) {
            Some(v) => {
                let mut r: String = "Value for '".to_owned();
                r.append(key.as_str());
                r.append("': ");
                r.append(v.as_str());
                r.append("\n");
                proof {
                    assert(r@ =~= resp_get_found(ts[1], old(db)@[ts[1]].value));
                }
                r
            },
            None => {
                let mut r: String = "Key '".to_owned();
                r.append(key.as_str());
                r.append("' not found or expired\n");
                proof {
                    assert(r@ =~= resp_get_missing(ts[1]));
                }
                r
            },
        }
    } else if str_eq(op.as_str(), "delete") {
        if parts.len() < 2 {
            return "Usage: delete <key>\n".to_owned();
        }
        let key = &parts[1];
        if db.delete(key.as_str(), now) {
            let mut r: String = "Deleted key '".to_owned();
            r.append(key.as_str());
            r.append("'\n");
            proof {
                assert(r@ =~= resp_deleted(ts[1]));
            }
            r
        } else {
            let mut r: String = "Key '".to_owned();
            r.append(key.as_str());
            r.append("' not found\n");
            proof {
                assert(db@ =~= old(db)@.remove(ts[1]));
                assert(r@ =~= resp_delete_missing(ts[1]));
            }
            r
        }
    } else if str_eq(op.as_str(), "exit") {
        "Goodbye!\n".to_owned()
    } else {
        "Unknown command\n".to_owned()
    }
}

} // verus!
