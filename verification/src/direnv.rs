//! What direnv exports for a directory: the output of `direnv export json`
//! read into the variables it sets.
use vstd::prelude::*;

use crate::text::{distinct_keys, entries_map, lemma_entries_map, pair_views, string_opt};

verus! {

broadcast use vstd::seq_lib::group_seq_properties;

/// What `serde_json` reads from the output of `direnv export json`: none
/// unless the bytes are a JSON object whose values are strings or `null`;
/// otherwise each variable with its value, none for one that direnv unsets.
pub uninterp spec fn env_json(bytes: Seq<u8>) -> Option<Map<Seq<char>, Option<Seq<char>>>>;

/// The model of a list of entries with optional values.
pub open spec fn opt_entry_views(v: Seq<(String, Option<String>)>) -> Seq<(Seq<char>, Option<Seq<char>>)> {
    Seq::new(v.len(), |i: int| (v[i].0@, string_opt(v[i].1)))
}

/// Parses `bytes` with `serde_json::from_slice` into a
/// `HashMap<String, Option<String>>` and lists its entries, each key once.
/// Named [`env_json`]: the JSON grammar is not restated here, and the order
/// of the entries (the map's own) is not stated.
#[verifier::external_body]
fn read_env_json(bytes: &[u8]) -> (r: Option<Vec<(String, Option<String>)>>)
    ensures
        r is None <==> env_json(bytes@) is None,
        r matches Some(v) ==> distinct_keys(opt_entry_views(v@)) && env_json(bytes@) == Some(
            entries_map(opt_entry_views(v@)),
        ),
{
    serde_json::from_slice::<std::collections::HashMap<String, Option<String>>>(bytes).ok().map(
        |m| m.into_iter().collect(),
    )
}

/// The variables an export sets: those it gives a value.
pub open spec fn set_vars(m: Map<Seq<char>, Option<Seq<char>>>) -> Map<Seq<char>, Seq<char>> {
    Map::new(|k: Seq<char>| m.contains_key(k) && m[k] is Some, |k: Seq<char>| m[k].unwrap())
}

/// The variables that the output `stdout` of `direnv export json` sets,
/// each once, with their values; the variables it unsets are left out.
/// None when the output cannot be read (see [`env_json`]). The order of the
/// list is that of the parse, which is not stated.
pub fn direnv_exports(stdout: &[u8]) -> (r: Option<Vec<(String, String)>>)
    ensures
        r is None <==> env_json(stdout@) is None,
        r matches Some(v) ==> distinct_keys(pair_views(v@)) && entries_map(pair_views(v@)) == set_vars(
            env_json(stdout@).unwrap(),
        ),
{
    match read_env_json(stdout) {
        None => None,
        Some(entries) => {
            let ghost ev = opt_entry_views(entries@);
            let mut out: Vec<(String, String)> = Vec::new();
            let mut i: usize = 0;
            assert(set_vars(entries_map(ev.take(0))) =~= Map::<Seq<char>, Seq<char>>::empty());
            while i < entries.len()
                invariant
                    ev == opt_entry_views(entries@),
                    distinct_keys(ev),
                    i <= entries.len(),
                    distinct_keys(pair_views(out@)),
                    entries_map(pair_views(out@)) == set_vars(entries_map(ev.take(i as int))),
                    forall|j: int|
                        0 <= j < out.len() ==> exists|t: int|
                            0 <= t < i && ev[t].0 == (#[trigger] pair_views(out@)[j]).0,
                decreases entries.len() - i,
            {
                let ghost prev = ev.take(i as int);
                let ghost k = ev[i as int].0;
                assert(ev.take(i + 1) == prev.push(ev[i as int]));
                assert(ev.take(i + 1).drop_last() =~= prev);
                proof {
                    lemma_entries_map(prev);
                    if entries_map(prev).contains_key(k) {
                        let t = choose|t: int| 0 <= t < prev.len() && prev[t].0 == k;
                        assert(prev[t] == ev[t]);
                    }
                }
                let ghost old_out = pair_views(out@);
                match &entries[i].1 {
                    Some(s) => {
                        out.push((entries[i].0.clone(), s.clone()));
                        let ghost po = pair_views(out@);
                        assert(po =~= old_out.push((k, s@)));
                        assert(po.drop_last() =~= old_out);
                        assert(set_vars(entries_map(ev.take(i + 1))) =~= set_vars(entries_map(prev)).insert(
                            k,
                            s@,
                        ));
                        assert forall|a: int, b: int|
                            0 <= a < po.len() && 0 <= b < po.len() && a != b implies #[trigger] po[a].0
                            != #[trigger] po[b].0 by {
                            if a < old_out.len() && b < old_out.len() {
                                assert(po[a] == old_out[a] && po[b] == old_out[b]);
                            } else if a < old_out.len() {
                                assert(po[a] == old_out[a]);
                                let t = choose|t: int| 0 <= t < i && ev[t].0 == old_out[a].0;
                            } else {
                                assert(po[b] == old_out[b]);
                                let t = choose|t: int| 0 <= t < i && ev[t].0 == old_out[b].0;
                            }
                        }
                        assert forall|j: int| 0 <= j < po.len() implies exists|t: int|
                            0 <= t < i + 1 && ev[t].0 == (#[trigger] po[j]).0 by {
                            if j < old_out.len() {
                                assert(po[j] == old_out[j]);
                                let t = choose|t: int| 0 <= t < i && ev[t].0 == old_out[j].0;
                                assert(0 <= t < i + 1 && ev[t].0 == po[j].0);
                            } else {
                                assert(ev[i as int].0 == po[j].0);
                            }
                        }
                    },
                    None => {
                        assert(set_vars(entries_map(ev.take(i + 1))) =~= set_vars(entries_map(prev)));
                    },
                }
                i = i + 1;
            }
            assert(ev.take(i as int) =~= ev);
            Some(out)
        },
    }
}

} // verus!
