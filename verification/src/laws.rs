//! Laws of the filtering pipeline, stated and proved over the
//! mathematical model.

use vstd::prelude::*;
use crate::value::{Val, lookup, lemma_lookup_absent};
use crate::filter::{
    Platform,
    launch_field_names,
    launch_config_field_names,
    os_ok,
    keep_keys,
    spec_filter_entry,
};
use crate::locate::spec_locate;
use crate::strutil::{is_ws, trim_of, lemma_drop_leading_at, lemma_drop_trailing_at};

verus! {

/// Looking a key up in the concatenation of two field lists finds it in
/// the first list when it is there, else in the second.
proof fn lemma_lookup_append(a: Seq<(Seq<char>, Val)>, b: Seq<(Seq<char>, Val)>, key: Seq<char>)
    ensures
        lookup(a + b, key) == (if lookup(a, key) is Some {
            lookup(a, key)
        } else {
            lookup(b, key)
        }),
    decreases a.len(),
{
    if a.len() == 0 {
        assert(a + b =~= b);
    } else {
        assert((a + b)[0] == a[0]);
        if a[0].0 != key {
            assert((a + b).drop_first() =~= a.drop_first() + b);
            lemma_lookup_append(a.drop_first(), b, key);
        }
    }
}

/// Every field that `keep_keys` keeps carries one of the listed keys.
proof fn lemma_keep_keys_keys(entry: Seq<(Seq<char>, Val)>, keys: Seq<Seq<char>>)
    ensures
        forall|i: int|
            0 <= i < keep_keys(entry, keys).len() ==> keys.contains(
                #[trigger] keep_keys(entry, keys)[i].0,
            ),
    decreases keys.len(),
{
    if keys.len() > 0 {
        lemma_keep_keys_keys(entry, keys.drop_last());
        assert(keys[keys.len() - 1] == keys.last());
        assert(keys.contains(keys.last()));
        assert forall|i: int|
            0 <= i < keep_keys(entry, keys).len() implies keys.contains(
            #[trigger] keep_keys(entry, keys)[i].0,
        ) by {
            let rest = keep_keys(entry, keys.drop_last());
            if i < rest.len() {
                assert(keys.drop_last().contains(rest[i].0));
                let j = choose|j: int|
                    0 <= j < keys.drop_last().len() && keys.drop_last()[j] == rest[i].0;
                assert(keys[j] == rest[i].0);
            }
        }
    }
}

/// What `keep_keys` keeps under a listed key is exactly what the entry
/// holds under it; an unlisted key is never kept.
proof fn lemma_keep_keys_lookup(entry: Seq<(Seq<char>, Val)>, keys: Seq<Seq<char>>, key: Seq<char>)
    ensures
        keys.contains(key) ==> lookup(keep_keys(entry, keys), key) == lookup(entry, key),
        !keys.contains(key) ==> lookup(keep_keys(entry, keys), key) is None,
    decreases keys.len(),
{
    if keys.len() == 0 {
        assert(!keys.contains(key));
    } else {
        lemma_keep_keys_lookup(entry, keys.drop_last(), key);
        let rest = keep_keys(entry, keys.drop_last());
        assert(keys[keys.len() - 1] == keys.last());
        if keys.contains(key) {
            let j = choose|j: int| 0 <= j < keys.len() && keys[j] == key;
            if j < keys.len() - 1 {
                assert(keys.drop_last()[j] == key);
                assert(keys.drop_last().contains(key));
            } else {
                assert(keys.last() == key);
            }
        }
        if keys.drop_last().contains(key) {
            let j = choose|j: int|
                0 <= j < keys.drop_last().len() && keys.drop_last()[j] == key;
            assert(keys[j] == key);
            assert(keys.contains(key));
        }
        match lookup(entry, keys.last()) {
            Some(v) => {
                let tail = seq![(keys.last(), v)];
                assert(keep_keys(entry, keys) =~= rest + tail);
                lemma_lookup_append(rest, tail, key);
                assert(tail[0] == (keys.last(), v));
                assert(tail.drop_first() =~= Seq::<(Seq<char>, Val)>::empty());
                assert(lookup(Seq::<(Seq<char>, Val)>::empty(), key) is None);
                if keys.last() == key {
                    assert(lookup(tail, key) == Some(v));
                } else {
                    assert(lookup(tail, key) is None);
                }
            },
            None => {
                assert(keep_keys(entry, keys) == rest);
            },
        }
    }
}

/// Entries with the same values under the listed keys keep the same
/// fields.
proof fn lemma_keep_keys_same_lookups(
    e1: Seq<(Seq<char>, Val)>,
    e2: Seq<(Seq<char>, Val)>,
    keys: Seq<Seq<char>>,
)
    requires
        forall|j: int| 0 <= j < keys.len() ==> lookup(e1, #[trigger] keys[j]) == lookup(e2, keys[j]),
    ensures
        keep_keys(e1, keys) == keep_keys(e2, keys),
    decreases keys.len(),
{
    if keys.len() > 0 {
        assert forall|j: int|
            0 <= j < keys.drop_last().len() implies lookup(
            e1,
            #[trigger] keys.drop_last()[j],
        ) == lookup(e2, keys.drop_last()[j]) by {
            assert(keys.drop_last()[j] == keys[j]);
        }
        lemma_keep_keys_same_lookups(e1, e2, keys.drop_last());
        assert(keys[keys.len() - 1] == keys.last());
    }
}

/// A launch entry that carries no `config.oslist` string is
/// platform-agnostic: it applies to every platform the filter can
/// resolve.
pub proof fn lemma_no_oslist_applies_everywhere(entry: Seq<(Seq<char>, Val)>, platform: Platform)
    requires
        match lookup(entry, "config"@) {
            Some(Val::Obj(cfg)) => !(lookup(cfg, "oslist"@) matches Some(Val::Str(_))),
            _ => true,
        },
    ensures
        os_ok(entry, platform),
{
}

/// An `oslist` of `"  windows  "` applies on Windows, where trimming
/// the surrounding whitespace leaves the platform's own name, and does
/// not apply on Linux.
pub proof fn lemma_padded_windows_oslist(
    entry: Seq<(Seq<char>, Val)>,
    cfg: Seq<(Seq<char>, Val)>,
)
    requires
        lookup(entry, "config"@) == Some(Val::Obj(cfg)),
        lookup(cfg, "oslist"@) == Some(Val::Str("  windows  "@)),
    ensures
        os_ok(entry, Platform::Windows),
        !os_ok(entry, Platform::Linux),
{
    reveal_strlit("  windows  ");
    reveal_strlit("windows");
    reveal_strlit("linux");
    let s = "  windows  "@;
    lemma_trim_concrete(s, 2, 9);
    assert(s.subrange(2, 9) =~= "windows"@);
    assert(trim_of(s) == "windows"@);
    assert("windows"@ != "linux"@);
}

/// Trimming a sequence whose whitespace sits exactly before `i` and
/// from `j` on keeps the characters in between.
proof fn lemma_trim_concrete(s: Seq<char>, i: int, j: int)
    requires
        0 <= i <= j <= s.len(),
        forall|k: int| 0 <= k < i ==> is_ws(#[trigger] s[k]),
        forall|k: int| j <= k < s.len() ==> is_ws(#[trigger] s[k]),
        i == s.len() || !is_ws(s[i]),
        j == 0 || !is_ws(s[j - 1]),
    ensures
        trim_of(s) == s.subrange(i, j),
{
    lemma_drop_leading_at(s, i);
    let t = s.skip(i);
    lemma_drop_trailing_at(t, j - i);
    assert(t.take(j - i) =~= s.subrange(i, j));
}

/// The recognized key names differ from one another and from
/// `config` and `oslist`.
proof fn lemma_names_distinct()
    ensures
        launch_field_names()[0] == "arguments"@,
        launch_field_names()[1] == "executable"@,
        launch_field_names()[2] == "workingdir"@,
        launch_config_field_names()[0] == "oslist"@,
        forall|j: int|
            0 <= j < launch_field_names().len() ==> #[trigger] launch_field_names()[j]
                != "config"@,
{
    reveal_strlit("arguments");
    reveal_strlit("executable");
    reveal_strlit("workingdir");
    reveal_strlit("config");
    reveal_strlit("oslist");
    assert("arguments"@.len() == 9);
    assert("executable"@.len() == 10);
    assert("workingdir"@.len() == 10);
    assert("config"@.len() == 6);
    assert forall|j: int|
        0 <= j < launch_field_names().len() implies #[trigger] launch_field_names()[j]
        != "config"@ by {
        if j == 0 {
            assert(launch_field_names()[0] == "arguments"@);
        } else if j == 1 {
            assert(launch_field_names()[1] == "executable"@);
        } else {
            assert(launch_field_names()[2] == "workingdir"@);
        }
    }
}

/// A top-level key a filtered entry may carry.
pub open spec fn recognized_top(key: Seq<char>) -> bool {
    launch_field_names().contains(key) || key == "config"@
}

/// Filtering never invents a field: every top-level field of a
/// filtered entry carries a recognized key, and the nested `config`,
/// when present, carries nothing but `oslist`.
pub proof fn lemma_filter_entry_whitelist(
    entry: Seq<(Seq<char>, Val)>,
    platform: Platform,
    out: Seq<(Seq<char>, Val)>,
)
    requires
        spec_filter_entry(entry, platform) == Some(Val::Obj(out)),
    ensures
        forall|i: int| 0 <= i < out.len() ==> recognized_top(#[trigger] out[i].0),
        forall|i: int|
            0 <= i < out.len() && out[i].0 == "config"@ ==> (#[trigger] out[i].1 matches Val::Obj(
                c,
            ) && forall|j: int| 0 <= j < c.len() ==> (#[trigger] c[j]).0 == "oslist"@),
{
    lemma_names_distinct();
    let names = launch_field_names();
    let cfgnames = launch_config_field_names();
    let top = keep_keys(entry, names);
    lemma_keep_keys_keys(entry, names);
    assert forall|i: int| 0 <= i < top.len() implies recognized_top(#[trigger] top[i].0)
        && top[i].0 != "config"@ by {
        assert(names.contains(top[i].0));
        let j = choose|j: int| 0 <= j < names.len() && names[j] == top[i].0;
    }
    match lookup(entry, "config"@) {
        Some(Val::Obj(cfg)) => {
            let kept = keep_keys(cfg, cfgnames);
            lemma_keep_keys_keys(cfg, cfgnames);
            assert forall|j: int| 0 <= j < kept.len() implies (#[trigger] kept[j]).0
                == "oslist"@ by {
                assert(cfgnames.contains(kept[j].0));
                let t = choose|t: int| 0 <= t < cfgnames.len() && cfgnames[t] == kept[j].0;
                assert(t == 0);
            }
            if kept.len() != 0 {
                assert(out =~= top.push(("config"@, Val::Obj(kept))));
                assert(forall|i: int| 0 <= i < top.len() ==> out[i] == #[trigger] top[i]);
                assert(out[out.len() - 1] == ("config"@, Val::Obj(kept)));
            } else {
                assert(out == top);
            }
        },
        _ => {
            assert(out == top);
        },
    }
}

/// An entry whose fields all carry unrecognized keys disappears from
/// the filtered output entirely.
pub proof fn lemma_unrecognized_entry_vanishes(entry: Seq<(Seq<char>, Val)>, platform: Platform)
    requires
        forall|i: int|
            0 <= i < entry.len() ==> !recognized_top(#[trigger] entry[i].0),
    ensures
        spec_filter_entry(entry, platform) is None,
{
    assert forall|i: int| 0 <= i < entry.len() implies #[trigger] entry[i].0 != "config"@ by {
        assert(!recognized_top(entry[i].0));
    }
    lemma_lookup_absent(entry, "config"@);
    let names = launch_field_names();
    assert forall|j: int| 0 <= j < names.len() implies lookup(
        entry,
        #[trigger] names[j],
    ) is None by {
        assert forall|i: int| 0 <= i < entry.len() implies #[trigger] entry[i].0 != names[j] by {
            assert(names.contains(names[j]));
            assert(!recognized_top(entry[i].0));
        }
        lemma_lookup_absent(entry, names[j]);
    }
    lemma_keep_keys_lookup_all_none(entry, names);
}

/// Keys an entry does not hold keep nothing.
proof fn lemma_keep_keys_lookup_all_none(entry: Seq<(Seq<char>, Val)>, keys: Seq<Seq<char>>)
    requires
        forall|j: int| 0 <= j < keys.len() ==> lookup(entry, #[trigger] keys[j]) is None,
    ensures
        keep_keys(entry, keys).len() == 0,
    decreases keys.len(),
{
    if keys.len() > 0 {
        assert forall|j: int| 0 <= j < keys.drop_last().len() implies lookup(
            entry,
            #[trigger] keys.drop_last()[j],
        ) is None by {
            assert(keys.drop_last()[j] == keys[j]);
        }
        lemma_keep_keys_lookup_all_none(entry, keys.drop_last());
        assert(keys[keys.len() - 1] == keys.last());
    }
}

/// Filtering is idempotent on entries: what the filter lets through it
/// lets through again, unchanged.
pub proof fn lemma_filter_entry_idempotent(
    entry: Seq<(Seq<char>, Val)>,
    platform: Platform,
    out: Seq<(Seq<char>, Val)>,
)
    requires
        spec_filter_entry(entry, platform) == Some(Val::Obj(out)),
    ensures
        spec_filter_entry(out, platform) == Some(Val::Obj(out)),
{
    lemma_names_distinct();
    let names = launch_field_names();
    let cfgnames = launch_config_field_names();
    let top = keep_keys(entry, names);
    lemma_keep_keys_keys(entry, names);
    assert forall|i: int| 0 <= i < top.len() implies #[trigger] top[i].0 != "config"@ by {
        assert(names.contains(top[i].0));
        let j = choose|j: int| 0 <= j < names.len() && names[j] == top[i].0;
    }
    lemma_lookup_absent(top, "config"@);
    let kept_opt = match lookup(entry, "config"@) {
        Some(Val::Obj(cfg)) => Some(keep_keys(cfg, cfgnames)),
        _ => None,
    };
    if kept_opt is Some && kept_opt->0.len() != 0 {
        // The entry carried a config object of which `oslist` survived.
        let cfg = (match lookup(entry, "config"@) {
            Some(Val::Obj(c)) => c,
            _ => Seq::empty(),
        });
        let kept = keep_keys(cfg, cfgnames);
        assert(cfgnames.drop_last() =~= Seq::<Seq<char>>::empty());
        assert(keep_keys(cfg, cfgnames.drop_last()) =~= Seq::<(Seq<char>, Val)>::empty());
        assert(cfgnames.last() == cfgnames[0]);
        if let Some(v) = lookup(cfg, "oslist"@) {
            assert(kept =~= seq![("oslist"@, v)]);
            let tail = seq![("config"@, Val::Obj(kept))];
            assert(out =~= top + tail);
            assert(tail[0] == ("config"@, Val::Obj(kept)));
            assert(tail.drop_first() =~= Seq::<(Seq<char>, Val)>::empty());
            lemma_lookup_append(top, tail, "config"@);
            assert(lookup(out, "config"@) == Some(Val::Obj(kept)));
            assert(kept[0] == ("oslist"@, v));
            assert(kept.drop_first() =~= Seq::<(Seq<char>, Val)>::empty());
            assert(lookup(kept, "oslist"@) == Some(v));
            // The kept oslist is the one the platform check accepted.
            assert(os_ok(out, platform));
            // The recognized top-level fields read the same in `out`.
            assert forall|j: int| 0 <= j < names.len() implies lookup(
                out,
                #[trigger] names[j],
            ) == lookup(entry, names[j]) by {
                assert(names.contains(names[j]));
                lemma_keep_keys_lookup(entry, names, names[j]);
                lemma_lookup_append(top, tail, names[j]);
                assert(names[j] != "config"@);
                assert(lookup(Seq::<(Seq<char>, Val)>::empty(), names[j]) is None);
                assert(lookup(tail, names[j]) is None);
            }
            lemma_keep_keys_same_lookups(out, entry, names);
            assert(keep_keys(out, names) == top);
            // Refiltering the kept config keeps it whole.
            assert(keep_keys(kept, cfgnames.drop_last()) =~= Seq::<(Seq<char>, Val)>::empty());
            assert(lookup(kept, cfgnames.last()) == Some(v));
            assert(keep_keys(kept, cfgnames) =~= kept);
            assert(top.push(("config"@, Val::Obj(kept))) =~= out);
        }
    } else {
        // Nothing of a nested config survived: `out` is the kept
        // top-level fields alone.
        assert(out =~= top);
        assert(lookup(out, "config"@) is None);
        assert(os_ok(out, platform));
        assert forall|j: int| 0 <= j < names.len() implies lookup(
            out,
            #[trigger] names[j],
        ) == lookup(entry, names[j]) by {
            assert(names.contains(names[j]));
            lemma_keep_keys_lookup(entry, names, names[j]);
        }
        lemma_keep_keys_same_lookups(out, entry, names);
        assert(keep_keys(out, names) == top);
    }
}

/// The pipeline is a pure function of the database model: equal
/// databases make `locate` yield equal records, however often it runs.
pub proof fn lemma_locate_deterministic(db1: Val, db2: Val, appid: u32, platform: Platform)
    requires
        db1 == db2,
    ensures
        spec_locate(db1, appid, platform) == spec_locate(db2, appid, platform),
{
}

} // verus!
