//! The launch-entry filter: keeps the launch entries that match a host
//! platform and strips every field that is not recognized.

use vstd::prelude::*;
use crate::value::{Value, Val, fields_view, lookup, lemma_fields_view_index, obj_get};
use crate::strutil::{trim_of, trim_str, str_eq};

verus! {

/// The host platform a launch entry is matched against. Anything other
/// than Windows or Linux makes the filter yield nothing at all.
#[derive(Clone, Copy, PartialEq, Eq, Structural, Debug)]
pub enum Platform {
    Windows,
    Linux,
    Unsupported,
}

impl Platform {
    /// The name a launch entry's `oslist` field is compared against.
    pub open spec fn name_spec(self) -> Seq<char> {
        match self {
            Platform::Windows => "windows"@,
            Platform::Linux => "linux"@,
            Platform::Unsupported => ""@,
        }
    }

    /// Executable form of [`Platform::name_spec`].
    pub fn name(self) -> (r: &'static str)
        ensures
            r@ == self.name_spec(),
    {
        match self {
            Platform::Windows => "windows",
            Platform::Linux => "linux",
            Platform::Unsupported => "",
        }
    }
}

/// The recognized top-level fields of a launch entry.
pub open spec fn launch_field_names() -> Seq<Seq<char>> {
    seq!["arguments"@, "executable"@, "workingdir"@]
}

/// The recognized fields of a launch entry's nested `config`.
pub open spec fn launch_config_field_names() -> Seq<Seq<char>> {
    seq!["oslist"@]
}

/// Executable form of [`launch_field_names`].
fn launch_field_list() -> (r: Vec<&'static str>)
    ensures
        r@.len() == launch_field_names().len(),
        forall|i: int| 0 <= i < r@.len() ==> #[trigger] r@[i]@ == launch_field_names()[i],
{
    let v: Vec<&'static str> = vec!["arguments", "executable", "workingdir"];
    proof {
        assert(v@[0]@ == launch_field_names()[0]);
        assert(v@[1]@ == launch_field_names()[1]);
        assert(v@[2]@ == launch_field_names()[2]);
    }
    v
}

/// Executable form of [`launch_config_field_names`].
fn launch_config_field_list() -> (r: Vec<&'static str>)
    ensures
        r@.len() == launch_config_field_names().len(),
        forall|i: int| 0 <= i < r@.len() ==> #[trigger] r@[i]@ == launch_config_field_names()[i],
{
    let v: Vec<&'static str> = vec!["oslist"];
    proof {
        assert(v@[0]@ == launch_config_field_names()[0]);
    }
    v
}

/// Whether a launch entry applies to `platform`: an entry with no
/// `config.oslist` string is platform-agnostic and always applies; one
/// with an `oslist` string applies exactly when that string, trimmed of
/// surrounding whitespace, is the platform's name.
pub open spec fn os_ok(entry: Seq<(Seq<char>, Val)>, platform: Platform) -> bool {
    match lookup(entry, "config"@) {
        Some(Val::Obj(cfg)) => match lookup(cfg, "oslist"@) {
            Some(Val::Str(s)) => trim_of(s) == platform.name_spec(),
            _ => true,
        },
        _ => true,
    }
}

/// The fields of `entry` named by `keys`, in the order of `keys`,
/// skipping names that `entry` does not carry.
pub open spec fn keep_keys(entry: Seq<(Seq<char>, Val)>, keys: Seq<Seq<char>>) -> Seq<
    (Seq<char>, Val),
>
    decreases keys.len(),
{
    if keys.len() == 0 {
        Seq::empty()
    } else {
        let rest = keep_keys(entry, keys.drop_last());
        match lookup(entry, keys.last()) {
            Some(v) => rest.push((keys.last(), v)),
            None => rest,
        }
    }
}

/// What survives of one launch entry: nothing when the entry does not
/// apply to the platform; otherwise its recognized top-level fields,
/// plus a nested `config` reduced to its recognized fields when that
/// reduction is non-empty; nothing when no field survives at all.
pub open spec fn spec_filter_entry(entry: Seq<(Seq<char>, Val)>, platform: Platform) -> Option<
    Val,
> {
    if !os_ok(entry, platform) {
        None
    } else {
        let top = keep_keys(entry, launch_field_names());
        let all = match lookup(entry, "config"@) {
            Some(Val::Obj(cfg)) => {
                let kept = keep_keys(cfg, launch_config_field_names());
                if kept.len() == 0 {
                    top
                } else {
                    top.push(("config"@, Val::Obj(kept)))
                }
            },
            _ => top,
        };
        if all.len() == 0 {
            None
        } else {
            Some(Val::Obj(all))
        }
    }
}

/// The surviving launch entries, in order: an entry whose value is not
/// an object is skipped, and so is one of which nothing survives.
pub open spec fn spec_filter_launch(entries: Seq<(Seq<char>, Val)>, platform: Platform) -> Seq<
    (Seq<char>, Val),
>
    decreases entries.len(),
{
    if entries.len() == 0 {
        Seq::empty()
    } else {
        let rest = spec_filter_launch(entries.drop_last(), platform);
        match entries.last().1 {
            Val::Obj(e) => match spec_filter_entry(e, platform) {
                Some(out) => rest.push((entries.last().0, out)),
                None => rest,
            },
            _ => rest,
        }
    }
}

/// The launch-entry filter: nothing on an unsupported platform, nothing
/// when no entry survives, otherwise the object of surviving entries.
pub open spec fn spec_get_launch_keys(entries: Seq<(Seq<char>, Val)>, platform: Platform) -> Option<
    Val,
> {
    if platform is Unsupported {
        None
    } else {
        let kept = spec_filter_launch(entries, platform);
        if kept.len() == 0 {
            None
        } else {
            Some(Val::Obj(kept))
        }
    }
}

/// Whether one launch entry applies to `platform`: the executable form
/// of [`os_ok`].
pub fn entry_matches_platform(entry: &Vec<(String, Value)>, platform: Platform) -> (r: bool)
    ensures
        r == os_ok(fields_view(entry@), platform),
{
    match obj_get(entry, "config") {
        Some(Value::Obj(cfg)) => match obj_get(cfg, "oslist") {
            Some(Value::Str(s)) => {
                let trimmed = trim_str(s.as_str());
                str_eq(trimmed, platform.name())
            },
            _ => true,
        },
        _ => true,
    }
}

/// The recognized fields of `entry` named by `keys`, copied in key
/// order: the executable form of [`keep_keys`].
fn keep_listed_fields(entry: &Vec<(String, Value)>, keys: &Vec<&'static str>, Ghost(names): Ghost<
    Seq<Seq<char>>,
>) -> (r: Vec<(String, Value)>)
    requires
        keys@.len() == names.len(),
        forall|i: int| 0 <= i < keys@.len() ==> #[trigger] keys@[i]@ == names[i],
    ensures
        fields_view(r@) == keep_keys(fields_view(entry@), names),
{
    let ghost ev = fields_view(entry@);
    let mut out: Vec<(String, Value)> = Vec::new();
    let mut k: usize = 0;
    while k < keys.len()
        invariant
            0 <= k <= keys@.len(),
            keys@.len() == names.len(),
            forall|i: int| 0 <= i < keys@.len() ==> #[trigger] keys@[i]@ == names[i],
            ev == fields_view(entry@),
            fields_view(out@) =~= keep_keys(ev, names.take(k as int)),
        decreases keys@.len() - k,
    {
        proof {
            assert(names.take(k + 1 as int).drop_last() =~= names.take(k as int));
            assert(names.take(k + 1 as int).last() == names[k as int]);
        }
        match obj_get(entry, keys[k]) {
            Some(v) => {
                let copy = v.dup();
                let key_string = keys[k].to_owned();
                proof {
                    assert(out@.push((key_string, copy)).drop_last() =~= out@);
                    assert(fields_view(out@.push((key_string, copy))) =~= fields_view(out@).push(
                    (key_string@, copy@),
                    ));
                }
                out.push((key_string, copy));
            },
            None => {},
        }
        k = k + 1;
    }
    proof {
        assert(names.take(names.len() as int) =~= names);
    }
    out
}

/// What survives of one launch entry: the executable form of
/// [`spec_filter_entry`]. The surviving fields are fresh copies; the
/// entry itself is left untouched.
pub fn filter_entry(entry: &Vec<(String, Value)>, platform: Platform) -> (r: Option<Value>)
    ensures
        match r {
            Some(v) => spec_filter_entry(fields_view(entry@), platform) == Some(v@),
            None => spec_filter_entry(fields_view(entry@), platform) is None,
        },
{
    if !entry_matches_platform(entry, platform) {
        return None;
    }
    let keys = launch_field_list();
    let mut out = keep_listed_fields(entry, &keys, Ghost(launch_field_names()));
    match obj_get(entry, "config") {
        Some(Value::Obj(cfg)) => {
            let cfg_keys = launch_config_field_list();
            let kept = keep_listed_fields(cfg, &cfg_keys, Ghost(launch_config_field_names()));
            proof {
                lemma_fields_view_index(kept@);
            }
            if kept.len() > 0 {
                let key_string = "config".to_owned();
                let cfg_value = Value::Obj(kept);
                proof {
                    assert(out@.push((key_string, cfg_value)).drop_last() =~= out@);
                    assert(fields_view(out@.push((key_string, cfg_value))) =~= fields_view(
                    out@,
                    ).push((key_string@, cfg_value@)));
                }
                out.push((key_string, cfg_value));
            }
        },
        _ => {},
    }
    proof {
        lemma_fields_view_index(out@);
    }
    if out.len() == 0 {
        None
    } else {
        Some(Value::Obj(out))
    }
}

/// The launch-entry filter: the executable form of
/// [`spec_get_launch_keys`]. Given the raw `launch` object of one
/// application, yields the object of entries that match `platform`,
/// each reduced to its recognized fields, or nothing when no entry
/// survives (in particular, always nothing on an unsupported platform).
pub fn get_launch_keys(launch: &Vec<(String, Value)>, platform: Platform) -> (r: Option<Value>)
    ensures
        match r {
            Some(v) => spec_get_launch_keys(fields_view(launch@), platform) == Some(v@),
            None => spec_get_launch_keys(fields_view(launch@), platform) is None,
        },
{
    match platform {
        Platform::Unsupported => {
            return None;
        },
        _ => {},
    }
    proof {
        lemma_fields_view_index(launch@);
    }
    let ghost lv = fields_view(launch@);
    let mut out: Vec<(String, Value)> = Vec::new();
    let mut i: usize = 0;
    while i < launch.len()
        invariant
            0 <= i <= launch@.len(),
            lv == fields_view(launch@),
            lv.len() == launch@.len(),
            forall|k: int| 0 <= k < launch@.len() ==> #[trigger] lv[k] == (
            launch@[k].0@,
            launch@[k].1.val(),
            ),
            fields_view(out@) =~= spec_filter_launch(lv.take(i as int), platform),
        decreases launch@.len() - i,
    {
        proof {
            assert(lv.take(i + 1 as int).drop_last() =~= lv.take(i as int));
            assert(lv.take(i + 1 as int).last() == lv[i as int]);
        }
        let kv = &launch[i];
        match &kv.1 {
            Value::Obj(entry) => {
                match filter_entry(entry, platform) {
                    Some(filtered) => {
                        let key_string = kv.0.clone();
                        proof {
                            assert(out@.push((key_string, filtered)).drop_last() =~= out@);
                        }
                        out.push((key_string, filtered));
                    },
                    None => {},
                }
            },
            _ => {},
        }
        i = i + 1;
    }
    proof {
        assert(lv.take(lv.len() as int) =~= lv);
    }
    if out.len() == 0 {
        None
    } else {
        Some(Value::Obj(out))
    }
}

} // verus!
