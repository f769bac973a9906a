//! The bot's configuration document and the admin section that the
//! supervisor enables once the user has approved managed edits.
//!
//! Only the `admin` mapping is touched: every other top-level entry keeps its
//! place and value.

use vstd::prelude::*;
use crate::text::{blank, is_blank, is_space, same_text};
use rand::distributions::Alphanumeric;
use rand::Rng;

verus! {

/// A node of the configuration document (a YAML value). Numbers keep their
/// source text.
#[derive(Debug)]
pub enum ConfigValue {
    Null,
    Bool(bool),
    Number(String),
    Text(String),
    List(Vec<ConfigValue>),
    Mapping(Vec<(ConfigValue, ConfigValue)>),
    Tagged(String, Box<ConfigValue>),
}

/// The loopback address the admin API is bound to.
pub const ADMIN_ADDR: &'static str = "127.0.0.1:15631";

pub const ADMIN_KEY: &'static str = "admin";

pub const ENABLE_KEY: &'static str = "enable";

pub const ADDR_KEY: &'static str = "addr";

pub const TOKEN_KEY: &'static str = "token";

pub open spec fn is_key(k: ConfigValue, name: Seq<char>) -> bool {
    k matches ConfigValue::Text(s) && s@ == name
}

pub open spec fn is_text(v: ConfigValue, s: Seq<char>) -> bool {
    v matches ConfigValue::Text(t) && t@ == s
}

pub open spec fn is_nonblank_text(v: ConfigValue) -> bool {
    v matches ConfigValue::Text(t) && !blank(t@)
}

pub open spec fn is_mapping(v: ConfigValue) -> bool {
    v matches ConfigValue::Mapping(_)
}

pub open spec fn entries_of(v: ConfigValue) -> Seq<(ConfigValue, ConfigValue)> {
    match v {
        ConfigValue::Mapping(es) => es@,
        _ => Seq::empty(),
    }
}

/// `p` is the first entry of `es` keyed by `name`.
pub open spec fn is_first(es: Seq<(ConfigValue, ConfigValue)>, name: Seq<char>, p: int) -> bool {
    0 <= p < es.len() && is_key(es[p].0, name) && forall|j: int| 0 <= j < p ==> !is_key(#[trigger] es[j].0, name)
}

/// No entry of `es` is keyed by `name`.
pub open spec fn absent(es: Seq<(ConfigValue, ConfigValue)>, name: Seq<char>) -> bool {
    forall|j: int| 0 <= j < es.len() ==> !is_key(#[trigger] es[j].0, name)
}

/// The value under `name`, looked up as a mapping lookup does.
pub open spec fn value_at(es: Seq<(ConfigValue, ConfigValue)>, name: Seq<char>) -> Option<ConfigValue> {
    if exists|p: int| is_first(es, name, p) {
        let p = choose|p: int| is_first(es, name, p);
        Some(es[p].1)
    } else {
        None
    }
}

/// `new` is `old` with the entry under `name` settled: an existing value that
/// `keep` accepts stays, any other is replaced in place by one that `put`
/// accepts, and a missing entry is appended.
pub open spec fn settled(
    old: Seq<(ConfigValue, ConfigValue)>,
    new: Seq<(ConfigValue, ConfigValue)>,
    name: Seq<char>,
    keep: spec_fn(ConfigValue) -> bool,
    put: spec_fn(ConfigValue) -> bool,
) -> bool {
    &&& forall|p: int| #[trigger] is_first(old, name, p) ==> {
        &&& new.len() == old.len()
        &&& forall|i: int| 0 <= i < old.len() && i != p ==> new[i] == old[i]
        &&& new[p].0 == old[p].0
        &&& if keep(old[p].1) {
            new[p].1 == old[p].1
        } else {
            put(new[p].1)
        }
    }
    &&& absent(old, name) ==> {
        &&& new.len() == old.len() + 1
        &&& forall|i: int| 0 <= i < old.len() ==> new[i] == old[i]
        &&& is_key(new[old.len() as int].0, name)
        &&& put(new[old.len() as int].1)
    }
}

pub open spec fn enable_ok() -> spec_fn(ConfigValue) -> bool {
    |v: ConfigValue| v == ConfigValue::Bool(true)
}

pub open spec fn addr_ok() -> spec_fn(ConfigValue) -> bool {
    |v: ConfigValue| is_text(v, ADMIN_ADDR@)
}

pub open spec fn token_kept() -> spec_fn(ConfigValue) -> bool {
    |v: ConfigValue| is_nonblank_text(v)
}

pub open spec fn token_put(fresh: Seq<char>) -> spec_fn(ConfigValue) -> bool {
    |v: ConfigValue| is_text(v, fresh)
}

/// The admin section of a document: its entries where it is a mapping.
pub open spec fn admin_entries(doc: ConfigValue) -> Seq<(ConfigValue, ConfigValue)> {
    match value_at(entries_of(doc), ADMIN_KEY@) {
        Some(v) => entries_of(v),
        None => Seq::empty(),
    }
}

/// The admin token that a document holds: a non-blank text under
/// `admin.token`, where `admin` is a mapping.
pub open spec fn admin_token_of(doc: ConfigValue) -> Option<Seq<char>> {
    match doc {
        ConfigValue::Mapping(root) => match value_at(root@, ADMIN_KEY@) {
            Some(ConfigValue::Mapping(admin)) => match value_at(admin@, TOKEN_KEY@) {
                Some(ConfigValue::Text(t)) => if blank(t@) { None } else { Some(t@) },
                _ => None,
            },
            _ => None,
        },
        _ => None,
    }
}

/// The admin entries after enabling: `enable: true`, the loopback `addr`,
/// and a token that stays where a non-blank one is present, else `fresh`.
pub open spec fn admin_fixed(
    old: Seq<(ConfigValue, ConfigValue)>,
    new: Seq<(ConfigValue, ConfigValue)>,
    fresh: Seq<char>,
) -> bool {
    exists|a1: Seq<(ConfigValue, ConfigValue)>, a2: Seq<(ConfigValue, ConfigValue)>|
        #[trigger] settled(old, a1, ENABLE_KEY@, enable_ok(), enable_ok())
        && #[trigger] settled(a1, a2, ADDR_KEY@, addr_ok(), addr_ok())
        && settled(a2, new, TOKEN_KEY@, token_kept(), token_put(fresh))
}

/// `new` is `old` with its admin section enabled (a document that is not a
/// mapping counts as an empty one), and `token` is the token it then holds.
pub open spec fn admin_enabled(old: ConfigValue, fresh: Seq<char>, new: ConfigValue, token: Seq<char>) -> bool {
    let root = entries_of(old);
    &&& new matches ConfigValue::Mapping(_)
    &&& settled(root, entries_of(new), ADMIN_KEY@, |v: ConfigValue| false, |v: ConfigValue| is_mapping(v))
    &&& match value_at(entries_of(new), ADMIN_KEY@) {
        Some(v) => admin_fixed(admin_entries(old), entries_of(v), fresh),
        None => false,
    }
    &&& token == match value_at(admin_entries(old), TOKEN_KEY@) {
        Some(ConfigValue::Text(t)) => if blank(t@) { fresh } else { t@ },
        _ => fresh,
    }
}

pub proof fn lemma_first_exists(es: Seq<(ConfigValue, ConfigValue)>, name: Seq<char>, k: int)
    requires
        0 <= k < es.len(),
        is_key(es[k].0, name),
    ensures
        exists|p: int| is_first(es, name, p),
    decreases k,
{
    if exists|j: int| 0 <= j < k && is_key(es[j].0, name) {
        let j = choose|j: int| 0 <= j < k && is_key(es[j].0, name);
        lemma_first_exists(es, name, j);
    } else {
        assert(is_first(es, name, k));
    }
}

pub proof fn lemma_first_unique(es: Seq<(ConfigValue, ConfigValue)>, name: Seq<char>, p: int, q: int)
    requires
        is_first(es, name, p),
        is_first(es, name, q),
    ensures
        p == q,
{
    if p < q {
        assert(!is_key(es[p].0, name));
    } else if q < p {
        assert(!is_key(es[q].0, name));
    }
}

pub proof fn lemma_value_at_first(es: Seq<(ConfigValue, ConfigValue)>, name: Seq<char>, p: int)
    requires
        is_first(es, name, p),
    ensures
        value_at(es, name) == Some(es[p].1),
{
    let q = choose|q: int| is_first(es, name, q);
    lemma_first_unique(es, name, p, q);
}

pub proof fn lemma_value_at_absent(es: Seq<(ConfigValue, ConfigValue)>, name: Seq<char>)
    requires
        absent(es, name),
    ensures
        value_at(es, name) is None,
{
}

/// The first entry keyed by `name`.
pub fn find_entry(es: &Vec<(ConfigValue, ConfigValue)>, name: &str) -> (r: Option<usize>)
    ensures
        r matches Some(p) ==> is_first(es@, name@, p as int),
        r is None ==> absent(es@, name@),
{
    let mut i: usize = 0;
    while i < es.len()
        invariant
            i <= es@.len(),
            forall|j: int| 0 <= j < i ==> !is_key(#[trigger] es@[j].0, name@),
        decreases es@.len() - i,
    {
        let hit = match &es[i].0 {
            ConfigValue::Text(s) => same_text(s.as_str(), name),
            _ => false,
        };
        if hit {
            return Some(i);
        }
        i += 1;
    }
    None
}

/// Sets the value under `name`: in place at its first entry `at`, or in a
/// new entry at the end where there is none.
fn put_value(es: &mut Vec<(ConfigValue, ConfigValue)>, name: &str, at: Option<usize>, v: ConfigValue)
    requires
        at matches Some(p) ==> is_first(old(es)@, name@, p as int),
        at is None ==> absent(old(es)@, name@),
    ensures
        at matches Some(p) ==> final(es)@ == old(es)@.update(p as int, (old(es)@[p as int].0, v)),
        at is None ==> {
            &&& final(es)@.len() == old(es)@.len() + 1
            &&& final(es)@.drop_last() == old(es)@
            &&& is_key(final(es)@.last().0, name@)
            &&& final(es)@.last().1 == v
        },
{
    match at {
        Some(p) => {
            let (k, _) = es.remove(p);
            es.insert(p, (k, v));
            assert(es@ =~= old(es)@.update(p as int, (old(es)@[p as int].0, v)));
        },
        None => {
            es.push((ConfigValue::Text(String::from_str(name)), v));
            assert(es@.drop_last() =~= old(es)@);
        },
    }
}

proof fn lemma_settled_by_put(
    old: Seq<(ConfigValue, ConfigValue)>,
    new: Seq<(ConfigValue, ConfigValue)>,
    name: Seq<char>,
    at: Option<usize>,
    keep: spec_fn(ConfigValue) -> bool,
    put: spec_fn(ConfigValue) -> bool,
)
    requires
        at matches Some(p) ==> is_first(old, name, p as int),
        at is None ==> absent(old, name),
        at matches Some(p) ==> if keep(old[p as int].1) {
            new == old
        } else {
            new.len() == old.len() && put(new[p as int].1) && new == old.update(p as int, (old[p as int].0, new[p as int].1))
        },
        at is None ==> {
            &&& new.len() == old.len() + 1
            &&& new.drop_last() == old
            &&& is_key(new.last().0, name)
            &&& put(new.last().1)
        },
    ensures
        settled(old, new, name, keep, put),
{
    if let Some(p) = at {
        assert forall|q: int| #[trigger] is_first(old, name, q) implies q == p by {
            lemma_first_unique(old, name, p as int, q);
        }
        assert(!absent(old, name));
    } else {
        assert forall|q: int| !#[trigger] is_first(old, name, q) by {}
        assert forall|i: int| 0 <= i < old.len() implies new[i] == old[i] by {
            assert(new.drop_last()[i] == new[i]);
        }
    }
}

/// Makes `enable` true.
fn settle_enable(es: &mut Vec<(ConfigValue, ConfigValue)>)
    ensures
        settled(old(es)@, final(es)@, ENABLE_KEY@, enable_ok(), enable_ok()),
{
    let at = find_entry(es, ENABLE_KEY);
    let good = match at {
        Some(p) => match &es[p].1 {
            ConfigValue::Bool(b) => *b,
            _ => false,
        },
        None => false,
    };
    if !good {
        put_value(es, ENABLE_KEY, at, ConfigValue::Bool(true));
    }
    proof {
        lemma_settled_by_put(old(es)@, es@, ENABLE_KEY@, at, enable_ok(), enable_ok());
    }
}

/// Makes `addr` the loopback admin address.
fn settle_addr(es: &mut Vec<(ConfigValue, ConfigValue)>)
    ensures
        settled(old(es)@, final(es)@, ADDR_KEY@, addr_ok(), addr_ok()),
{
    let at = find_entry(es, ADDR_KEY);
    let good = match at {
        Some(p) => match &es[p].1 {
            ConfigValue::Text(t) => same_text(t.as_str(), ADMIN_ADDR),
            _ => false,
        },
        None => false,
    };
    if !good {
        put_value(es, ADDR_KEY, at, ConfigValue::Text(String::from_str(ADMIN_ADDR)));
    }
    proof {
        lemma_settled_by_put(old(es)@, es@, ADDR_KEY@, at, addr_ok(), addr_ok());
    }
}

/// Keeps a non-blank `token`, else sets it to `fresh`; returns the token.
fn settle_token(es: &mut Vec<(ConfigValue, ConfigValue)>, fresh: String) -> (r: String)
    ensures
        settled(old(es)@, final(es)@, TOKEN_KEY@, token_kept(), token_put(fresh@)),
        r@ == match value_at(old(es)@, TOKEN_KEY@) {
            Some(ConfigValue::Text(t)) => if blank(t@) { fresh@ } else { t@ },
            _ => fresh@,
        },
{
    let at = find_entry(es, TOKEN_KEY);
    let current = match at {
        Some(p) => match &es[p].1 {
            ConfigValue::Text(t) => if is_blank(t.as_str()) { None } else { Some(t.clone()) },
            _ => None,
        },
        None => None,
    };
    proof {
        if let Some(p) = at {
            lemma_value_at_first(es@, TOKEN_KEY@, p as int);
        } else {
            lemma_value_at_absent(es@, TOKEN_KEY@);
        }
    }
    match current {
        Some(t) => {
            proof {
                lemma_settled_by_put(old(es)@, es@, TOKEN_KEY@, at, token_kept(), token_put(fresh@));
            }
            t
        },
        None => {
            let r = fresh.clone();
            put_value(es, TOKEN_KEY, at, ConfigValue::Text(fresh));
            proof {
                lemma_settled_by_put(old(es)@, es@, TOKEN_KEY@, at, token_kept(), token_put(fresh@));
            }
            r
        },
    }
}

/// Settling one key leaves the lookup of every other key as it was.
pub proof fn lemma_settled_other(
    old: Seq<(ConfigValue, ConfigValue)>,
    new: Seq<(ConfigValue, ConfigValue)>,
    name: Seq<char>,
    other: Seq<char>,
    keep: spec_fn(ConfigValue) -> bool,
    put: spec_fn(ConfigValue) -> bool,
)
    requires
        settled(old, new, name, keep, put),
        name != other,
    ensures
        value_at(new, other) == value_at(old, other),
{
    if exists|j: int| 0 <= j < old.len() && is_key(old[j].0, name) {
        let j = choose|j: int| 0 <= j < old.len() && is_key(old[j].0, name);
        lemma_first_exists(old, name, j);
        let p = choose|p: int| is_first(old, name, p);
        assert(is_first(old, name, p));
        assert forall|i: int| 0 <= i < old.len() implies #[trigger] new[i].0 == old[i].0 by {
            if i != p {
                assert(new[i] == old[i]);
            }
        }
        if exists|q: int| is_first(old, other, q) {
            let q = choose|q: int| is_first(old, other, q);
            assert(q != p);
            assert(is_first(new, other, q));
            lemma_value_at_first(old, other, q);
            lemma_value_at_first(new, other, q);
        } else {
            assert forall|i: int| 0 <= i < new.len() implies !is_key(#[trigger] new[i].0, other) by {
                if is_key(old[i].0, other) {
                    lemma_first_exists(old, other, i);
                }
            }
        }
    } else {
        assert(absent(old, name));
        assert forall|i: int| 0 <= i < old.len() implies #[trigger] new[i].0 == old[i].0 by {
            assert(new[i] == old[i]);
        }
        if exists|q: int| is_first(old, other, q) {
            let q = choose|q: int| is_first(old, other, q);
            assert(is_first(new, other, q));
            lemma_value_at_first(old, other, q);
            lemma_value_at_first(new, other, q);
        } else {
            assert forall|i: int| 0 <= i < new.len() implies !is_key(#[trigger] new[i].0, other) by {
                if i < old.len() && is_key(old[i].0, other) {
                    lemma_first_exists(old, other, i);
                }
            }
        }
    }
}

/// Settling a key whose value is already acceptable changes nothing.
pub proof fn lemma_settled_keeps(
    old: Seq<(ConfigValue, ConfigValue)>,
    new: Seq<(ConfigValue, ConfigValue)>,
    name: Seq<char>,
    keep: spec_fn(ConfigValue) -> bool,
    put: spec_fn(ConfigValue) -> bool,
)
    requires
        settled(old, new, name, keep, put),
        value_at(old, name) matches Some(v) && keep(v),
    ensures
        new == old,
{
    let p = choose|p: int| is_first(old, name, p);
    assert(is_first(old, name, p));
    assert(new =~= old);
}

/// After settling, the key holds a value that `keep` or `put` accepts.
pub proof fn lemma_settled_holds(
    old: Seq<(ConfigValue, ConfigValue)>,
    new: Seq<(ConfigValue, ConfigValue)>,
    name: Seq<char>,
    keep: spec_fn(ConfigValue) -> bool,
    put: spec_fn(ConfigValue) -> bool,
)
    requires
        settled(old, new, name, keep, put),
    ensures
        value_at(new, name) is Some,
        (value_at(old, name) matches Some(w) && keep(w)) ==> value_at(new, name) == value_at(old, name),
        !(value_at(old, name) matches Some(w) && keep(w)) ==> put(value_at(new, name).unwrap()),
{
    if exists|j: int| 0 <= j < old.len() && is_key(old[j].0, name) {
        let j = choose|j: int| 0 <= j < old.len() && is_key(old[j].0, name);
        lemma_first_exists(old, name, j);
        let p = choose|p: int| is_first(old, name, p);
        assert(is_first(old, name, p));
        assert(is_first(new, name, p)) by {
            assert forall|i: int| 0 <= i < p implies !is_key(#[trigger] new[i].0, name) by {
                assert(new[i] == old[i]);
            }
        }
        lemma_value_at_first(old, name, p);
        lemma_value_at_first(new, name, p);
    } else {
        assert(absent(old, name));
        lemma_value_at_absent(old, name);
        let n = old.len() as int;
        assert(is_first(new, name, n)) by {
            assert forall|i: int| 0 <= i < n implies !is_key(#[trigger] new[i].0, name) by {
                assert(new[i] == old[i]);
            }
        }
        lemma_value_at_first(new, name, n);
    }
}

proof fn lemma_key_names_differ()
    ensures
        ENABLE_KEY@ != TOKEN_KEY@,
        ADDR_KEY@ != TOKEN_KEY@,
        ENABLE_KEY@ != ADDR_KEY@,
{
    reveal_strlit("enable");
    reveal_strlit("addr");
    reveal_strlit("token");
    assert(ENABLE_KEY@.len() == 6);
    assert(TOKEN_KEY@.len() == 5);
    assert(ADDR_KEY@.len() == 4);
}

/// Enabling the admin section twice in a row: the second time keeps the token
/// of the first (no new one is minted when the first was not blank) and
/// leaves the admin section as the first left it.
pub proof fn lemma_enable_admin_idempotent(
    d0: ConfigValue,
    f1: Seq<char>,
    d1: ConfigValue,
    t1: Seq<char>,
    f2: Seq<char>,
    d2: ConfigValue,
    t2: Seq<char>,
)
    requires
        !blank(f1),
        admin_enabled(d0, f1, d1, t1),
        admin_enabled(d1, f2, d2, t2),
    ensures
        t2 == t1,
        !blank(t1),
        admin_token_of(d1) == Some(t1),
        admin_entries(d2) == admin_entries(d1),
{
    lemma_key_names_differ();
    let a0 = admin_entries(d0);
    let a3 = admin_entries(d1);
    let (a1, a2) = choose|a1: Seq<(ConfigValue, ConfigValue)>, a2: Seq<(ConfigValue, ConfigValue)>|
        #[trigger] settled(a0, a1, ENABLE_KEY@, enable_ok(), enable_ok())
        && #[trigger] settled(a1, a2, ADDR_KEY@, addr_ok(), addr_ok())
        && settled(a2, a3, TOKEN_KEY@, token_kept(), token_put(f1));
    lemma_settled_holds(a0, a1, ENABLE_KEY@, enable_ok(), enable_ok());
    lemma_settled_other(a1, a2, ADDR_KEY@, ENABLE_KEY@, addr_ok(), addr_ok());
    lemma_settled_other(a2, a3, TOKEN_KEY@, ENABLE_KEY@, token_kept(), token_put(f1));
    lemma_settled_holds(a1, a2, ADDR_KEY@, addr_ok(), addr_ok());
    lemma_settled_other(a2, a3, TOKEN_KEY@, ADDR_KEY@, token_kept(), token_put(f1));
    lemma_settled_holds(a2, a3, TOKEN_KEY@, token_kept(), token_put(f1));
    lemma_settled_other(a0, a1, ENABLE_KEY@, TOKEN_KEY@, enable_ok(), enable_ok());
    lemma_settled_other(a1, a2, ADDR_KEY@, TOKEN_KEY@, addr_ok(), addr_ok());
    let b0 = admin_entries(d1);
    let b3 = admin_entries(d2);
    let (b1, b2) = choose|b1: Seq<(ConfigValue, ConfigValue)>, b2: Seq<(ConfigValue, ConfigValue)>|
        #[trigger] settled(b0, b1, ENABLE_KEY@, enable_ok(), enable_ok())
        && #[trigger] settled(b1, b2, ADDR_KEY@, addr_ok(), addr_ok())
        && settled(b2, b3, TOKEN_KEY@, token_kept(), token_put(f2));
    lemma_settled_keeps(b0, b1, ENABLE_KEY@, enable_ok(), enable_ok());
    lemma_settled_keeps(b1, b2, ADDR_KEY@, addr_ok(), addr_ok());
    lemma_settled_keeps(b2, b3, TOKEN_KEY@, token_kept(), token_put(f2));
    let root1 = entries_of(d1);
    let p = choose|p: int| is_first(root1, ADMIN_KEY@, p);
    lemma_value_at_first(root1, ADMIN_KEY@, p);
}

/// A configuration document with its admin section enabled, and the token
/// that the section holds.
#[derive(Debug)]
pub struct AdminUpdate {
    pub doc: ConfigValue,
    pub token: String,
}

/// Enables the admin section of `doc`: `admin` becomes a mapping (a value of
/// another kind is replaced in place, a missing one appended), with
/// `enable: true`, the loopback `addr`, and its non-blank token kept or else
/// `fresh_token` set. A document that is not a mapping counts as an empty one.
pub fn apply_admin_settings(doc: ConfigValue, fresh_token: String) -> (r: AdminUpdate)
    ensures
        admin_enabled(doc, fresh_token@, r.doc, r.token@),
{
    let mut root = match doc {
        ConfigValue::Mapping(es) => es,
        _ => Vec::new(),
    };
    let ghost root0 = root@;
    let at = find_entry(&root, ADMIN_KEY);
    let (key, mut admin) = match at {
        Some(p) => {
            let (k, v) = root.remove(p);
            let a = match v {
                ConfigValue::Mapping(es) => es,
                _ => Vec::new(),
            };
            (Some(k), a)
        },
        None => (None, Vec::new()),
    };
    proof {
        if let Some(p) = at {
            lemma_value_at_first(root0, ADMIN_KEY@, p as int);
        } else {
            lemma_value_at_absent(root0, ADMIN_KEY@);
        }
        assert(admin@ == admin_entries(doc));
    }
    let ghost a0 = admin@;
    settle_enable(&mut admin);
    let ghost a1 = admin@;
    settle_addr(&mut admin);
    let ghost a2 = admin@;
    let token = settle_token(&mut admin, fresh_token);
    let ghost a3 = admin@;
    proof {
        reveal_strlit("enable");
        reveal_strlit("addr");
        reveal_strlit("token");
        assert(ENABLE_KEY@ == "enable"@);
        assert(ENABLE_KEY@.len() == 6);
        assert(TOKEN_KEY@.len() == 5);
        assert(ADDR_KEY@.len() == 4);
        lemma_settled_other(a0, a1, ENABLE_KEY@, TOKEN_KEY@, enable_ok(), enable_ok());
        lemma_settled_other(a1, a2, ADDR_KEY@, TOKEN_KEY@, addr_ok(), addr_ok());
        assert(admin_fixed(a0, a3, fresh_token@));
    }
    match key {
        Some(k) => {
            let p = at.unwrap();
            root.insert(p, (k, ConfigValue::Mapping(admin)));
            proof {
                assert(root@ =~= root0.update(p as int, (root0[p as int].0, ConfigValue::Mapping(admin))));
                lemma_settled_by_put(root0, root@, ADMIN_KEY@, at, |v: ConfigValue| false, |v: ConfigValue| is_mapping(v));
                assert(is_first(root@, ADMIN_KEY@, p as int));
                lemma_value_at_first(root@, ADMIN_KEY@, p as int);
            }
        },
        None => {
            root.push((ConfigValue::Text(String::from_str(ADMIN_KEY)), ConfigValue::Mapping(admin)));
            proof {
                assert(root@.drop_last() =~= root0);
                lemma_settled_by_put(root0, root@, ADMIN_KEY@, at, |v: ConfigValue| false, |v: ConfigValue| is_mapping(v));
                assert(is_first(root@, ADMIN_KEY@, root0.len() as int));
                lemma_value_at_first(root@, ADMIN_KEY@, root0.len() as int);
            }
        },
    }
    AdminUpdate { doc: ConfigValue::Mapping(root), token }
}

/// The admin token that `doc` holds, if any: a non-blank text under
/// `admin.token`. A missing token means the admin API is unavailable.
pub fn read_admin_token(doc: &ConfigValue) -> (r: Option<String>)
    ensures
        r matches Some(t) ==> admin_token_of(*doc) == Some(t@),
        r is None ==> admin_token_of(*doc) is None,
{
    match doc {
        ConfigValue::Mapping(root) => {
            match find_entry(root, ADMIN_KEY) {
                Some(p) => {
                    proof {
                        lemma_value_at_first(root@, ADMIN_KEY@, p as int);
                    }
                    match &root[p].1 {
                        ConfigValue::Mapping(admin) => {
                            match find_entry(admin, TOKEN_KEY) {
                                Some(q) => {
                                    proof {
                                        lemma_value_at_first(admin@, TOKEN_KEY@, q as int);
                                    }
                                    match &admin[q].1 {
                                        ConfigValue::Text(t) => if is_blank(t.as_str()) {
                                            None
                                        } else {
                                            Some(t.clone())
                                        },
                                        _ => None,
                                    }
                                },
                                None => None,
                            }
                        },
                        _ => None,
                    }
                },
                None => None,
            }
        },
        _ => None,
    }
}

/// Length of a newly minted admin token.
pub const TOKEN_LEN: usize = 48;

pub open spec fn is_alphanumeric(c: char) -> bool {
    ('a' <= c && c <= 'z') || ('A' <= c && c <= 'Z') || ('0' <= c && c <= '9')
}

/// Relies on rand's `thread_rng` sampled with `Alphanumeric`: each character
/// is drawn from A-Z, a-z and 0-9, and `len` of them are taken.
#[verifier::external_body]
fn random_alphanumeric(len: usize) -> (r: String)
    ensures
        r@.len() == len,
        forall|i: int| 0 <= i < r@.len() ==> is_alphanumeric(#[trigger] r@[i]),
{
    rand::thread_rng().sample_iter(&Alphanumeric).take(len).map(char::from).collect()
}

/// The configuration file as the supervisor finds it on disk.
pub enum StoredConfig {
    /// No configuration file exists.
    Missing,
    /// The file exists but could not be read or parsed as a document.
    Unreadable,
    /// The file parsed as this document.
    Parsed(ConfigValue),
}

/// The document that a stored configuration counts as: an unreadable one
/// counts as empty.
pub open spec fn stored_doc(stored: StoredConfig) -> ConfigValue {
    match stored {
        StoredConfig::Parsed(d) => d,
        _ => ConfigValue::Null,
    }
}

/// Where the user has approved managed edits and a configuration file
/// exists, enables its admin section, minting a random token only where no
/// non-blank one is present. Otherwise changes nothing.
pub fn enable_admin_in_config_if_approved(approved: bool, stored: StoredConfig) -> (r: Option<AdminUpdate>)
    ensures
        r is None <==> (!approved || stored is Missing),
        r matches Some(u) ==> {
            &&& exists|fresh: Seq<char>| #[trigger] admin_enabled(stored_doc(stored), fresh, u.doc, u.token@)
            &&& !blank(u.token@)
            &&& admin_token_of(stored_doc(stored)) matches Some(t) ==> u.token@ == t
        },
{
    if !approved {
        return None;
    }
    let doc = match stored {
        StoredConfig::Missing => {
            return None;
        },
        StoredConfig::Unreadable => ConfigValue::Null,
        StoredConfig::Parsed(d) => d,
    };
    let existing = read_admin_token(&doc);
    let fresh = match existing {
        Some(_) => String::new(),
        None => random_alphanumeric(TOKEN_LEN),
    };
    let ghost d0 = doc;
    let ghost f = fresh@;
    proof {
        if existing is None {
            assert(!blank(f)) by {
                assert(!is_space(f[0]));
            }
        }
    }
    let u = apply_admin_settings(doc, fresh);
    proof {
        assert(admin_enabled(stored_doc(stored), f, u.doc, u.token@));
        if let ConfigValue::Mapping(root) = d0 {
            if let Some(ConfigValue::Mapping(admin)) = value_at(root@, ADMIN_KEY@) {
                assert(admin_entries(d0) == admin@);
            }
        }
    }
    Some(u)
}

} // verus!
