//! The config selector and the application locator: from a whole
//! database tree down to one application's filtered launch record.

use vstd::prelude::*;
use crate::value::{Value, Val, fields_view, arr_view, lookup, lemma_arr_view_index, obj_get};
use crate::filter::{Platform, spec_get_launch_keys, get_launch_keys};

verus! {

/// What survives of an application's `config` object: an object with a
/// single `launch` field holding the filtered launch entries, or
/// nothing when `config` has no `launch` object or no entry survives.
pub open spec fn spec_get_config_keys(config: Seq<(Seq<char>, Val)>, platform: Platform) -> Option<
    Val,
> {
    match lookup(config, "launch"@) {
        Some(Val::Obj(launch)) => match spec_get_launch_keys(launch, platform) {
            Some(kept) => Some(Val::Obj(seq![("launch"@, kept)])),
            None => None,
        },
        _ => None,
    }
}

/// Whether a database record is the one a search for `appid` stops at:
/// an object whose `appid` field is that exact number.
pub open spec fn record_matches(record: Val, appid: u32) -> bool {
    match record {
        Val::Obj(app) => lookup(app, "appid"@) == Some(Val::Num(appid as u64)),
        _ => false,
    }
}

/// The located record within an entry sequence: the first record whose
/// `appid` matches wins; a malformed record is skipped. The result is
/// `{appid, config}` built from the winning record's filtered config,
/// or nothing when no record matches or nothing of its config survives.
pub open spec fn spec_locate_entries(entries: Seq<Val>, appid: u32, platform: Platform) -> Option<
    Val,
>
    decreases entries.len(),
{
    if entries.len() == 0 {
        None
    } else if record_matches(entries[0], appid) {
        match entries[0] {
            Val::Obj(app) => match lookup(app, "config"@) {
                Some(Val::Obj(cfg)) => match spec_get_config_keys(cfg, platform) {
                    Some(kept) => Some(
                        Val::Obj(
                            seq![("appid"@, Val::Num(appid as u64)), ("config"@, kept)],
                        ),
                    ),
                    None => None,
                },
                _ => None,
            },
            _ => None,
        }
    } else {
        spec_locate_entries(entries.drop_first(), appid, platform)
    }
}

/// The application locator over a whole database value: nothing unless
/// the database is an object with an `entries` array.
pub open spec fn spec_locate(db: Val, appid: u32, platform: Platform) -> Option<Val> {
    match db {
        Val::Obj(fields) => match lookup(fields, "entries"@) {
            Some(Val::Arr(entries)) => spec_locate_entries(entries, appid, platform),
            _ => None,
        },
        _ => None,
    }
}

/// What survives of an application's `config` object: the executable
/// form of [`spec_get_config_keys`].
pub fn get_config_keys(config: &Vec<(String, Value)>, platform: Platform) -> (r: Option<Value>)
    ensures
        match r {
            Some(v) => spec_get_config_keys(fields_view(config@), platform) == Some(v@),
            None => spec_get_config_keys(fields_view(config@), platform) is None,
        },
{
    match obj_get(config, "launch") {
        Some(Value::Obj(launch)) => match get_launch_keys(launch, platform) {
            Some(kept) => {
                let key_string = "launch".to_owned();
                let mut out: Vec<(String, Value)> = Vec::new();
                proof {
                    assert(fields_view(out@) =~= Seq::<(Seq<char>, Val)>::empty());
                    assert(out@.push((key_string, kept)).drop_last() =~= out@);
                    assert(fields_view(out@.push((key_string, kept))) =~= seq![
                        ("launch"@, kept@),
                    ]);
                }
                out.push((key_string, kept));
                Some(Value::Obj(out))
            },
            None => None,
        },
        _ => None,
    }
}

/// The application locator: the executable form of [`spec_locate`].
/// Scans the database's `entries` array for the first record whose
/// `appid` is the requested one and yields that application's minimal
/// filtered record, or nothing when no record matches, the record is
/// malformed, or nothing of its config survives the platform filter.
/// The database itself is never changed.
#[verifier::loop_isolation(false)]
pub fn locate(appid: u32, db: &Value, platform: Platform) -> (r: Option<Value>)
    ensures
        match r {
            Some(v) => spec_locate(db@, appid, platform) == Some(v@),
            None => spec_locate(db@, appid, platform) is None,
        },
{
    let entries = match db {
        Value::Obj(fields) => match obj_get(fields, "entries") {
            Some(Value::Arr(items)) => items,
            Some(_) => {
                return None;
            },
            None => {
                return None;
            },
        },
        _ => {
            return None;
        },
    };
    proof {
        lemma_arr_view_index(entries@);
    }
    let ghost av = arr_view(entries@);
    proof {
        assert(av.skip(0) =~= av);
    }
    let mut i: usize = 0;
    while i < entries.len()
        invariant
            0 <= i <= entries@.len(),
            av == arr_view(entries@),
            av.len() == entries@.len(),
            forall|k: int| 0 <= k < entries@.len() ==> av[k] == #[trigger] entries@[k].val(),
            spec_locate(db@, appid, platform) == spec_locate_entries(av, appid, platform),
            spec_locate_entries(av, appid, platform) == spec_locate_entries(
                av.skip(i as int),
                appid,
                platform,
            ),
        decreases entries@.len() - i,
    {
        proof {
            assert(av.skip(i as int)[0] == av[i as int]);
            assert(av.skip(i as int).drop_first() =~= av.skip(i + 1 as int));
        }
        match &entries[i] {
            Value::Obj(app) => {
                let matched = match obj_get(app, "appid") {
                    Some(Value::Num(n)) => *n == appid as u64,
                    Some(_) => false,
                    None => false,
                };
                if matched {
                    proof {
                        assert(av[i as int] == entries@[i as int].val());
                        assert(av[i as int] == Val::Obj(fields_view(app@)));
                    }
                    match obj_get(app, "config") {
                        Some(Value::Obj(cfg)) => {
                            match get_config_keys(cfg, platform) {
                                Some(kept) => {
                                    let appid_key = "appid".to_owned();
                                    let config_key = "config".to_owned();
                                    let appid_value = Value::Num(appid as u64);
                                    let mut out: Vec<(String, Value)> = Vec::new();
                                    proof {
                                        let one = out@.push((appid_key, appid_value));
                                        let two = one.push((config_key, kept));
                                        assert(fields_view(out@) =~= Seq::<
                                            (Seq<char>, Val),
                                        >::empty());
                                        assert(one.drop_last() =~= out@);
                                        assert(fields_view(one) =~= seq![
                                            ("appid"@, Val::Num(appid as u64)),
                                        ]);
                                        assert(two.drop_last() =~= one);
                                        assert(fields_view(two) =~= seq![
                                            ("appid"@, Val::Num(appid as u64)),
                                            ("config"@, kept@),
                                        ]);
                                    }
                                    out.push((appid_key, appid_value));
                                    out.push((config_key, kept));
                                    return Some(Value::Obj(out));
                                },
                                None => {
                                    return None;
                                },
                            }
                        },
                        Some(_) => {
                            return None;
                        },
                        None => {
                            return None;
                        },
                    }
                }
            },
            _ => {},
        }
        i = i + 1;
    }
    proof {
        assert(av.skip(av.len() as int) =~= Seq::<Val>::empty());
    }
    None
}

} // verus!
