//! The configuration of a shastra: its name, and the aliases of the shastras
//! it follows. Both come as JSON objects; the aliases come from a shared
//! table and a local one, and the local one wins.

use crate::model::{
    Config, keys_unique, lemma_lookup_from, lookup, lookup_from, pair_views, ShastraConfig,
};
use crate::text::opt_text;
use vstd::prelude::*;

verus! {

/// The members of the JSON object that `serde_json::from_str` reads from
/// `content`, as `json_members` hands them out; `None` where `content` is no
/// JSON object.
pub uninterp spec fn json_members_of(content: Seq<char>) -> Option<
    Seq<(Seq<char>, Option<Seq<char>>)>,
>;

pub open spec fn member_views(v: Seq<(String, Option<String>)>) -> Seq<
    (Seq<char>, Option<Seq<char>>),
> {
    v.map_values(|m: (String, Option<String>)| (m.0@, opt_text(m.1)))
}

/// Reads a JSON object with `serde_json::from_str` and hands out its members
/// in the order in which `serde_json::Map` keeps them: each key, with the
/// text of its value where the value is a string. What comes back depends on
/// `content` alone. Of the members nothing is claimed but that no key comes
/// twice, as the object is a map.
#[verifier::external_body]
fn json_members(content: &str) -> (r: Option<Vec<(String, Option<String>)>>)
    ensures
        match r {
            Some(v) => json_members_of(content@) == Some(member_views(v@)) && keys_unique(
                member_views(v@),
            ),
            None => json_members_of(content@).is_none(),
        },
{
    let parsed: Result<serde_json::Map<String, serde_json::Value>, serde_json::Error> =
        serde_json::from_str(content);
    match parsed {
        Ok(map) => Some(
            map.iter().map(|(k, v)| (k.clone(), v.as_str().map(|s| s.to_string()))).collect(),
        ),
        Err(_) => None,
    }
}

/// The name that the members of a configuration declare: the text of the
/// member `name`.
pub open spec fn name_in(members: Seq<(Seq<char>, Option<Seq<char>>)>) -> Option<Seq<char>> {
    match lookup(members, "name"@) {
        Some(i) => members[i].1,
        None => None,
    }
}

/// The first `n` members are all text.
pub open spec fn all_text(members: Seq<(Seq<char>, Option<Seq<char>>)>, n: int) -> bool
    decreases n,
{
    n <= 0 || (all_text(members, n - 1) && members[n - 1].1.is_some())
}

/// The members as a table of aliases.
pub open spec fn alias_pairs(members: Seq<(Seq<char>, Option<Seq<char>>)>) -> Seq<
    (Seq<char>, Seq<char>),
> {
    members.map_values(|m: (Seq<char>, Option<Seq<char>>)| (m.0, m.1.unwrap()))
}

/// The table of aliases that a member list gives: empty unless every member
/// is text.
pub open spec fn table_of(members: Option<Seq<(Seq<char>, Option<Seq<char>>)>>) -> Seq<
    (Seq<char>, Seq<char>),
> {
    match members {
        Some(m) => if all_text(m, m.len() as int) {
            alias_pairs(m)
        } else {
            Seq::empty()
        },
        None => Seq::empty(),
    }
}

/// The table `m` with `k` standing for `v`: in the place of what `k` stood
/// for, or at the end.
pub open spec fn put(m: Seq<(Seq<char>, Seq<char>)>, k: Seq<char>, v: Seq<char>) -> Seq<
    (Seq<char>, Seq<char>),
> {
    match lookup(m, k) {
        Some(i) => m.update(i, (k, v)),
        None => m.push((k, v)),
    }
}

/// The shared table with the first `n` entries of the local one put in.
pub open spec fn merged_upto(
    shared: Seq<(Seq<char>, Seq<char>)>,
    local: Seq<(Seq<char>, Seq<char>)>,
    n: int,
) -> Seq<(Seq<char>, Seq<char>)>
    decreases n,
{
    if n <= 0 {
        shared
    } else {
        put(merged_upto(shared, local, n - 1), local[n - 1].0, local[n - 1].1)
    }
}

/// The shared table with the local one put in.
pub open spec fn merged(shared: Seq<(Seq<char>, Seq<char>)>, local: Seq<(Seq<char>, Seq<char>)>) -> Seq<
    (Seq<char>, Seq<char>),
> {
    merged_upto(shared, local, local.len() as int)
}

/// What `k` stands for in the table `m`.
pub open spec fn value_of(m: Seq<(Seq<char>, Seq<char>)>, k: Seq<char>) -> Option<Seq<char>> {
    match lookup(m, k) {
        Some(i) => Some(m[i].1),
        None => None,
    }
}

/// After `put`, `k` stands for `v`, every other key stands for what it stood
/// for, and keys that were unique still are.
pub proof fn lemma_put(m: Seq<(Seq<char>, Seq<char>)>, k: Seq<char>, v: Seq<char>, other: Seq<char>)
    ensures
        value_of(put(m, k, v), k) == Some(v),
        other != k ==> value_of(put(m, k, v), other) == value_of(m, other),
        keys_unique(m) ==> keys_unique(put(m, k, v)),
{
    let p = put(m, k, v);
    lemma_lookup_from(m, k, 0);
    lemma_lookup_from(p, k, 0);
    lemma_lookup_from(m, other, 0);
    lemma_lookup_from(p, other, 0);
    match lookup(m, k) {
        Some(i) => {
            assert(p[i].0 == k);
            assert forall|j: int| 0 <= j < p.len() && j != i implies (#[trigger] p[j]) == m[j] by {}
            if other != k {
                match lookup(m, other) {
                    Some(a) => {
                        assert(p[a] == m[a]);
                    },
                    None => {},
                }
                match lookup(p, other) {
                    Some(b) => {
                        assert(p[b] == m[b]);
                    },
                    None => {},
                }
            }
        },
        None => {
            assert(p[m.len() as int].0 == k);
            assert forall|j: int| 0 <= j < m.len() implies (#[trigger] p[j]) == m[j] by {}
            if other != k {
                match lookup(m, other) {
                    Some(a) => {
                        assert(p[a] == m[a]);
                    },
                    None => {},
                }
                match lookup(p, other) {
                    Some(b) => {
                        assert(b < m.len());
                        assert(p[b] == m[b]);
                    },
                    None => {},
                }
            }
        },
    }
    if keys_unique(m) {
        assert forall|a: int, b: int| 0 <= a < b < p.len() implies (#[trigger] p[a]).0 != (
        #[trigger] p[b]).0 by {
            if a < m.len() {
                assert(p[a].0 == m[a].0);
            }
            if b < m.len() {
                assert(p[b].0 == m[b].0);
            }
        }
    }
}

/// The local table wins: in the merged table an alias of the local table
/// stands for what it stands for there, and any other alias for what it
/// stands for in the shared table.
pub proof fn local_overrides_shared(
    shared: Seq<(Seq<char>, Seq<char>)>,
    local: Seq<(Seq<char>, Seq<char>)>,
    k: Seq<char>,
)
    requires
        keys_unique(local),
    ensures
        value_of(merged(shared, local), k) == if value_of(local, k).is_some() {
            value_of(local, k)
        } else {
            value_of(shared, k)
        },
{
    lemma_merged_upto(shared, local, local.len() as int, k);
    lemma_lookup_from(local, k, 0);
}

proof fn lemma_merged_upto(
    shared: Seq<(Seq<char>, Seq<char>)>,
    local: Seq<(Seq<char>, Seq<char>)>,
    n: int,
    k: Seq<char>,
)
    requires
        keys_unique(local),
        0 <= n <= local.len(),
    ensures
        value_of(merged_upto(shared, local, n), k) == match lookup(local, k) {
            Some(i) => if i < n {
                Some(local[i].1)
            } else {
                value_of(shared, k)
            },
            None => value_of(shared, k),
        },
    decreases n,
{
    lemma_lookup_from(local, k, 0);
    if n > 0 {
        lemma_merged_upto(shared, local, n - 1, k);
        lemma_put(merged_upto(shared, local, n - 1), local[n - 1].0, local[n - 1].1, k);
        if local[n - 1].0 == k {
            match lookup(local, k) {
                Some(i) => {
                    if i != n - 1 {
                        assert(local[i].0 != local[n - 1].0);
                    }
                },
                None => {},
            }
        }
    }
}

/// The merged table keeps its aliases apart if the shared table does.
pub proof fn lemma_merged_unique(
    shared: Seq<(Seq<char>, Seq<char>)>,
    local: Seq<(Seq<char>, Seq<char>)>,
    n: int,
)
    requires
        keys_unique(shared),
        0 <= n <= local.len(),
    ensures
        keys_unique(merged_upto(shared, local, n)),
    decreases n,
{
    if n > 0 {
        lemma_merged_unique(shared, local, n - 1);
        lemma_put(merged_upto(shared, local, n - 1), local[n - 1].0, local[n - 1].1, local[n - 1].0);
    }
}

/// The configuration that the members of a JSON object declare.
pub fn config_from(members: &Vec<(String, Option<String>)>) -> (c: Config)
    ensures
        opt_text(c.name) == name_in(member_views(members@)),
{
    let ghost mv = member_views(members@);
    let key = "name".to_owned();
    let mut i: usize = 0;
    while i < members.len()
        invariant
            i <= members@.len(),
            key@ == "name"@,
            mv == member_views(members@),
            lookup(mv, "name"@) == lookup_from(mv, "name"@, i as int),
        decreases members@.len() - i,
    {
        assert(mv[i as int] == (members@[i as int].0@, opt_text(members@[i as int].1)));
        if members[i].0 == key {
            let name = match &members[i].1 {
                Some(s) => Some(s.clone()),
                None => None,
            };
            return Config { name };
        }
        i += 1;
    }
    Config { name: None }
}

/// The table of aliases that the members of a JSON object give, if every
/// member is text.
pub fn aliases_from(members: &Vec<(String, Option<String>)>) -> (r: Option<Vec<(String, String)>>)
    ensures
        match r {
            Some(v) => all_text(member_views(members@), members@.len() as int) && pair_views(v@)
                == alias_pairs(member_views(members@)) && (keys_unique(member_views(members@))
                ==> keys_unique(pair_views(v@))),
            None => !all_text(member_views(members@), members@.len() as int),
        },
{
    let ghost mv = member_views(members@);
    let mut r: Vec<(String, String)> = Vec::new();
    let mut i: usize = 0;
    while i < members.len()
        invariant
            i <= members@.len(),
            mv == member_views(members@),
            all_text(mv, i as int),
            r@.len() == i,
            forall|k: int| 0 <= k < i ==> (#[trigger] r@[k]).0@ == mv[k].0 && Some(r@[k].1@) == mv[k].1,
        decreases members@.len() - i,
    {
        assert(mv[i as int] == (members@[i as int].0@, opt_text(members@[i as int].1)));
        match &members[i].1 {
            Some(text) => {
                r.push((members[i].0.clone(), text.clone()));
            },
            None => {
                proof {
                    assert(!all_text(mv, i + 1));
                    if all_text(mv, members@.len() as int) {
                        lemma_all_text_prefix(mv, i + 1, members@.len() as int);
                    }
                }
                return None;
            },
        }
        i += 1;
    }
    assert(pair_views(r@) =~= alias_pairs(mv));
    assert(keys_unique(mv) ==> keys_unique(pair_views(r@))) by {
        if keys_unique(mv) {
            assert forall|a: int, b: int| 0 <= a < b < r@.len() implies (
            #[trigger] pair_views(r@)[a]).0 != (#[trigger] pair_views(r@)[b]).0 by {
                assert(mv[a].0 != mv[b].0);
            }
        }
    }
    Some(r)
}

proof fn lemma_all_text_prefix(members: Seq<(Seq<char>, Option<Seq<char>>)>, n: int, m: int)
    requires
        n <= m,
        all_text(members, m),
    ensures
        all_text(members, n),
    decreases m,
{
    if n < m && m > 0 {
        lemma_all_text_prefix(members, n, m - 1);
    }
}

/// Puts the local table into the shared one: where both hold an alias, the
/// local path stands.
pub fn merge_aliases(shared: Vec<(String, String)>, local: &Vec<(String, String)>) -> (r:
    ShastraConfig)
    ensures
        pair_views(r.aliases@) == merged(pair_views(shared@), pair_views(local@)),
        keys_unique(pair_views(shared@)) ==> keys_unique(pair_views(r.aliases@)),
{
    proof {
        if keys_unique(pair_views(shared@)) {
            lemma_merged_unique(pair_views(shared@), pair_views(local@), local@.len() as int);
        }
    }
    let ghost sv = pair_views(shared@);
    let ghost lv = pair_views(local@);
    let mut aliases = shared;
    let mut i: usize = 0;
    while i < local.len()
        invariant
            i <= local@.len(),
            lv == pair_views(local@),
            pair_views(aliases@) == merged_upto(sv, lv, i as int),
        decreases local@.len() - i,
    {
        assert(lv[i as int] == (local@[i as int].0@, local@[i as int].1@));
        let ghost before = pair_views(aliases@);
        match crate::model::find_alias(&aliases, &local[i].0) {
            Some(k) => {
                aliases[k].0 = local[i].0.clone();
                aliases[k].1 = local[i].1.clone();
                assert(pair_views(aliases@) =~= before.update(k as int, lv[i as int]));
            },
            None => {
                aliases.push((local[i].0.clone(), local[i].1.clone()));
                assert(pair_views(aliases@) =~= before.push(lv[i as int]));
            },
        }
        i += 1;
    }
    ShastraConfig { aliases }
}

/// Reads the configuration of a shastra from the text of its configuration
/// file. A text that is no JSON object declares nothing.
pub fn load_config(content: &str) -> (c: Config)
    ensures
        opt_text(c.name) == match json_members_of(content@) {
            Some(m) => name_in(m),
            None => None,
        },
{
    match json_members(content) {
        Some(members) => config_from(&members),
        None => Config { name: None },
    }
}

/// The table of aliases in the text of an alias file, if there is one. A
/// text that is no JSON object of strings gives an empty table.
fn load_table(content: Option<&str>) -> (r: Vec<(String, String)>)
    ensures
        pair_views(r@) == match content {
            Some(c) => table_of(json_members_of(c@)),
            None => Seq::empty(),
        },
        keys_unique(pair_views(r@)),
{
    let empty: Vec<(String, String)> = Vec::new();
    assert(pair_views(empty@) =~= Seq::empty());
    match content {
        Some(c) => match json_members(c) {
            Some(members) => {
                assert(member_views(members@).len() == members@.len());
                match aliases_from(&members) {
                    Some(v) => v,
                    None => empty,
                }
            },
            None => empty,
        },
        None => empty,
    }
}

/// Reads the aliases of the followed shastras from the texts of the shared
/// and of the local alias file, as far as the files are there.
pub fn load_shastra_config(shared: Option<&str>, local: Option<&str>) -> (r: ShastraConfig)
    ensures
        pair_views(r.aliases@) == merged(
            match shared {
                Some(c) => table_of(json_members_of(c@)),
                None => Seq::empty(),
            },
            match local {
                Some(c) => table_of(json_members_of(c@)),
                None => Seq::empty(),
            },
        ),
        keys_unique(pair_views(r.aliases@)),
{
    let base = load_table(shared);
    let over = load_table(local);
    merge_aliases(base, &over)
}

} // verus!
