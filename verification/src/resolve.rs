//! Resolution of the effective default record for a named machine: walk the
//! ancestor chain from the global root towards the full name, merging every
//! default record found on the way.
use vstd::prelude::*;

use crate::config_map::ConfigMap;
use crate::record::{
    field_of, lemma_merge_field, opt_config_view, spec_merge, ConfigView, Field, FieldValue,
    MachineConfig,
};
use crate::strings::{delimiter, join_path, spec_join};

verus! {

/// Length of the leading run of delimiter-free characters.
pub open spec fn head_len(s: Seq<char>) -> int
    decreases s.len(),
{
    if s.len() == 0 {
        0
    } else if s[0] == delimiter() {
        0
    } else {
        1 + head_len(s.drop_first())
    }
}

proof fn lemma_head_len(s: Seq<char>)
    ensures
        0 <= head_len(s) <= s.len(),
        forall|j: int| 0 <= j < head_len(s) ==> s[j] != delimiter(),
        head_len(s) < s.len() ==> s[head_len(s)] == delimiter(),
    decreases s.len(),
{
    if s.len() > 0 && s[0] != delimiter() {
        lemma_head_len(s.drop_first());
        assert forall|j: int| 0 <= j < head_len(s) implies s[j] != delimiter() by {
            if j > 0 {
                assert(s.drop_first()[j - 1] == s[j]);
            }
        }
        if head_len(s) < s.len() {
            assert(s.drop_first()[head_len(s) - 1] == s[head_len(s)]);
        }
    }
}

proof fn lemma_head_len_eq(s: Seq<char>, m: int)
    requires
        0 <= m <= s.len(),
        forall|j: int| 0 <= j < m ==> s[j] != delimiter(),
        m < s.len() ==> s[m] == delimiter(),
    ensures
        head_len(s) == m,
    decreases m,
{
    if m > 0 {
        assert(s[0] != delimiter());
        let rest = s.drop_first();
        assert(forall|j: int| 0 <= j < rest.len() ==> rest[j] == s[j + 1]);
        lemma_head_len_eq(rest, m - 1);
    } else {
        if s.len() > 0 {
            assert(s[0] == delimiter());
        }
    }
}

/// The segments of a name, as cut at every delimiter; an empty name yields
/// one empty segment, and empty segments are kept.
pub open spec fn spec_split(s: Seq<char>) -> Seq<Seq<char>>
    decreases s.len(),
    via spec_split_decreases
{
    let k = head_len(s);
    if k == s.len() {
        seq![s]
    } else {
        seq![s.take(k)] + spec_split(s.skip(k + 1))
    }
}

#[via_fn]
proof fn spec_split_decreases(s: Seq<char>) {
    lemma_head_len(s);
}

/// One step of the walk: if a default record is filed under `key`, merge it
/// onto what was gathered so far; otherwise keep the gathered record.
pub open spec fn lookup(
    d: Map<Seq<char>, ConfigView>,
    key: Seq<char>,
    cur: Option<ConfigView>,
) -> Option<ConfigView> {
    if d.contains_key(key) {
        match cur {
            Some(c) => Some(spec_merge(c, d[key])),
            None => Some(d[key]),
        }
    } else {
        cur
    }
}

/// The walk over the remaining segments: each segment extends the prefix,
/// and the map is consulted at every cumulative prefix.
pub open spec fn resolve_segs(
    d: Map<Seq<char>, ConfigView>,
    segs: Seq<Seq<char>>,
    prefix: Seq<char>,
    cur: Option<ConfigView>,
) -> Option<ConfigView>
    decreases segs.len(),
{
    if segs.len() == 0 {
        cur
    } else {
        let p = spec_join(prefix, segs[0]);
        resolve_segs(d, segs.drop_first(), p, lookup(d, p, cur))
    }
}

/// The effective default record for `name`: start from the global root
/// record (filed under the empty path), then walk the name's cumulative
/// prefixes from shortest to longest, merging every record found; a missing
/// intermediate level is skipped without breaking the chain. `None` exactly
/// when no entry exists anywhere along the chain.
pub open spec fn resolve_of(d: Map<Seq<char>, ConfigView>, name: Seq<char>) -> Option<ConfigView> {
    resolve_segs(d, spec_split(name), Seq::empty(), lookup(d, Seq::empty(), None))
}

/// The cumulative prefixes reached from `prefix` by the remaining segments,
/// shortest first.
pub open spec fn prefixes_from(segs: Seq<Seq<char>>, prefix: Seq<char>) -> Seq<Seq<char>>
    decreases segs.len(),
{
    if segs.len() == 0 {
        Seq::empty()
    } else {
        let p = spec_join(prefix, segs[0]);
        seq![p] + prefixes_from(segs.drop_first(), p)
    }
}

/// The ancestor chain of a name: the root path first, then every cumulative
/// prefix of the name, shortest to longest.
pub open spec fn chain_of(name: Seq<char>) -> Seq<Seq<char>> {
    seq![Seq::<char>::empty()] + prefixes_from(spec_split(name), Seq::empty())
}

/// Among the candidate paths that are filed in the map and whose record sets
/// the field, the last candidate — the longest prefix — wins.
pub open spec fn winner(
    d: Map<Seq<char>, ConfigView>,
    cands: Seq<Seq<char>>,
    f: Field,
) -> Option<FieldValue>
    decreases cands.len(),
{
    if cands.len() == 0 {
        None
    } else {
        let last = cands.last();
        if d.contains_key(last) && field_of(d[last], f) is Some {
            field_of(d[last], f)
        } else {
            winner(d, cands.drop_last(), f)
        }
    }
}

/// The chosen field of a possibly missing record.
pub open spec fn field_at(o: Option<ConfigView>, f: Field) -> Option<FieldValue> {
    match o {
        Some(c) => field_of(c, f),
        None => None,
    }
}

/// Some candidate path is filed in the map.
pub open spec fn any_in(d: Map<Seq<char>, ConfigView>, cands: Seq<Seq<char>>) -> bool {
    exists|i: int| 0 <= i < cands.len() && d.contains_key(#[trigger] cands[i])
}

proof fn lemma_winner_front(
    d: Map<Seq<char>, ConfigView>,
    p: Seq<char>,
    rest: Seq<Seq<char>>,
    f: Field,
)
    ensures
        winner(d, seq![p] + rest, f) == (if winner(d, rest, f) is Some {
            winner(d, rest, f)
        } else {
            winner(d, seq![p], f)
        }),
    decreases rest.len(),
{
    let all = seq![p] + rest;
    if rest.len() == 0 {
        assert(all =~= seq![p]);
    } else {
        assert(all.last() == rest.last());
        assert(all.drop_last() =~= seq![p] + rest.drop_last());
        lemma_winner_front(d, p, rest.drop_last(), f);
    }
}

proof fn lemma_any_in_front(d: Map<Seq<char>, ConfigView>, p: Seq<char>, rest: Seq<Seq<char>>)
    ensures
        any_in(d, seq![p] + rest) <==> (d.contains_key(p) || any_in(d, rest)),
{
    let all = seq![p] + rest;
    assert(all[0] == p);
    assert(forall|i: int| 0 <= i < rest.len() ==> all[i + 1] == #[trigger] rest[i]);
    if any_in(d, all) {
        let i = choose|i: int| 0 <= i < all.len() && d.contains_key(#[trigger] all[i]);
        if i > 0 {
            assert(rest[i - 1] == all[i]);
        }
    }
    if any_in(d, rest) {
        let i = choose|i: int| 0 <= i < rest.len() && d.contains_key(#[trigger] rest[i]);
        assert(all[i + 1] == rest[i]);
    }
}

proof fn lemma_resolve_segs_fields(
    d: Map<Seq<char>, ConfigView>,
    segs: Seq<Seq<char>>,
    prefix: Seq<char>,
    cur: Option<ConfigView>,
    f: Field,
)
    ensures
        resolve_segs(d, segs, prefix, cur) is Some <==> (cur is Some || any_in(
            d,
            prefixes_from(segs, prefix),
        )),
        field_at(resolve_segs(d, segs, prefix, cur), f) == (if winner(
            d,
            prefixes_from(segs, prefix),
            f,
        ) is Some {
            winner(d, prefixes_from(segs, prefix), f)
        } else {
            field_at(cur, f)
        }),
    decreases segs.len(),
{
    if segs.len() == 0 {
        assert(!any_in(d, prefixes_from(segs, prefix)));
    } else {
        let p = spec_join(prefix, segs[0]);
        let cur2 = lookup(d, p, cur);
        let rest = prefixes_from(segs.drop_first(), p);
        let all = prefixes_from(segs, prefix);
        assert(all == seq![p] + rest);
        lemma_resolve_segs_fields(d, segs.drop_first(), p, cur2, f);
        lemma_winner_front(d, p, rest, f);
        lemma_any_in_front(d, p, rest);
        if d.contains_key(p) {
            match cur {
                Some(c) => {
                    lemma_merge_field(c, d[p], f);
                },
                None => {},
            }
        }
        assert(seq![p].last() == p);
        assert(seq![p].drop_last() =~= Seq::<Seq<char>>::empty());
        assert(winner(d, Seq::<Seq<char>>::empty(), f) is None);
        assert(winner(d, seq![p], f) == (if d.contains_key(p) && field_of(d[p], f) is Some {
            field_of(d[p], f)
        } else {
            None
        }));
        assert(field_at(cur2, f) == (if d.contains_key(p) && field_of(d[p], f) is Some {
            field_of(d[p], f)
        } else {
            field_at(cur, f)
        }));
    }
}

/// The law of default resolution: a default record is resolved for a name
/// exactly when some entry exists along its ancestor chain; and then, for
/// each field independently, the resolved value comes from the longest
/// prefix in the chain whose record sets that field.
pub proof fn lemma_resolve_longest_prefix_wins(
    d: Map<Seq<char>, ConfigView>,
    name: Seq<char>,
    f: Field,
)
    ensures
        resolve_of(d, name) is Some <==> any_in(d, chain_of(name)),
        field_at(resolve_of(d, name), f) == winner(d, chain_of(name), f),
{
    let e = Seq::<char>::empty();
    let root = lookup(d, e, None);
    let prefs = prefixes_from(spec_split(name), e);
    lemma_resolve_segs_fields(d, spec_split(name), e, root, f);
    lemma_winner_front(d, e, prefs, f);
    lemma_any_in_front(d, e, prefs);
    assert(chain_of(name) == seq![e] + prefs);
    assert(seq![e].last() == e);
    assert(seq![e].drop_last() =~= Seq::<Seq<char>>::empty());
    assert(winner(d, Seq::<Seq<char>>::empty(), f) is None);
    assert(winner(d, seq![e], f) == (if d.contains_key(e) && field_of(d[e], f) is Some {
        field_of(d[e], f)
    } else {
        None
    }));
    assert(field_at(root, f) == (if d.contains_key(e) && field_of(d[e], f) is Some {
        field_of(d[e], f)
    } else {
        None
    }));
}

/// Fetch default values for a machine name: merge the ancestor chain of
/// default records, from the global root down to the name itself; a record
/// met deeper in the chain overrides, field by field, what was gathered
/// before it.
///
/// # Arguments
///
/// * `name` - Machine name
/// * `default_map` - Default values
///
pub fn fetch_default_values_for_name(name: &str, default_map: &ConfigMap) -> (r: Option<
    MachineConfig,
>)
    requires
        default_map.wf(),
    ensures
        opt_config_view(r) == resolve_of(default_map@, name@),
{
    let ghost d = default_map@;
    let n = name.unicode_len();
    proof {
        reveal_strlit("");
        assert(""@ =~= Seq::<char>::empty());
    }
    let mut cur: Option<MachineConfig> = match default_map.get("") {
        Some(c) => Some(c.clone()),
        None => None,
    };
    let mut prefix = String::new();
    let mut start: usize = 0;
    let mut finished = false;
    proof {
        assert(name@.skip(0) =~= name@);
    }
    while !finished
        invariant
            default_map.wf(),
            d == default_map@,
            n == name@.len(),
            start <= n,
            finished ==> opt_config_view(cur) == resolve_of(d, name@),
            !finished ==> resolve_of(d, name@) == resolve_segs(
                d,
                spec_split(name@.skip(start as int)),
                prefix@,
                opt_config_view(cur),
            ),
        decreases n - start + (if finished { 0int } else { 1int }),
    {
        let ghost rem = name@.skip(start as int);
        let mut end = start;
        while end < n && name.get_char(end) != ':'
            invariant
                n == name@.len(),
                start <= end <= n,
                forall|j: int| start <= j < end ==> name@[j] != delimiter(),
            decreases n - end,
        {
            end += 1;
        }
        proof {
            assert(forall|j: int| 0 <= j < end - start ==> rem[j] == name@[start + j]);
            if end < n {
                assert(name@[end as int] == ':');
                assert(rem[end - start] == ':');
            }
            lemma_head_len_eq(rem, end - start);
        }
        let seg = name.substring_char(start, end);
        let p = join_path(prefix.as_str(), seg);
        let ghost segs = spec_split(rem);
        proof {
            if end == n {
                assert(rem.take(head_len(rem)) =~= rem);
                assert(seg@ =~= rem);
                assert(segs == seq![rem]);
                assert(segs[0] == seg@);
                assert(segs.drop_first() =~= Seq::<Seq<char>>::empty());
            } else {
                assert(rem.take(end - start) =~= seg@);
                assert(segs == seq![seg@] + spec_split(rem.skip(end - start + 1)));
                assert(segs[0] == seg@);
                assert(segs.drop_first() =~= spec_split(rem.skip(end - start + 1)));
                assert(rem.skip(end - start + 1) =~= name@.skip(end + 1 as int));
            }
            assert(spec_join(prefix@, seg@) == p@);
        }
        let ghost cur_before = opt_config_view(cur);
        match default_map.get(p.as_str()) {
            Some(v) => {
                cur = Some(
                    match cur {
                        Some(c) => c.merge(v),
                        None => v.clone(),
                    },
                );
            },
            None => {},
        }
        proof {
            assert(opt_config_view(cur) == lookup(d, p@, cur_before));
            assert(resolve_segs(d, segs, prefix@, cur_before) == resolve_segs(
                d,
                segs.drop_first(),
                p@,
                lookup(d, p@, cur_before),
            ));
        }
        prefix = p;
        if end == n {
            finished = true;
        } else {
            start = end + 1;
        }
    }
    cur
}

} // verus!
