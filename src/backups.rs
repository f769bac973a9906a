//! Backup naming, listing and restore targets for configuration files.
//!
//! A backup of `<file>` taken at timestamp `<ts>` is named `<file>.<ts>.bak`.
//! Listings are newest first, by descending text order of the names.

use vstd::prelude::*;
use vstd::multiset::Multiset;
use crate::text::{
    chars_lt, chars_of, ends_with_chars, has_prefix, has_suffix, lemma_text_lt_irreflexive,
    lemma_text_lt_transitive, starts_with_chars, text_lt,
};

verus! {

broadcast use vstd::seq_lib::group_to_multiset_ensures;

/// Suffix that every backup file name ends with.
pub const BACKUP_SUFFIX: &'static str = ".bak";

pub open spec fn views(v: Seq<String>) -> Seq<Seq<char>> {
    v.map_values(|s: String| s@)
}

/// The name of the backup of `filename` taken at `timestamp`.
pub open spec fn backup_name_of(filename: Seq<char>, timestamp: Seq<char>) -> Seq<char> {
    filename + seq!['.'] + timestamp + BACKUP_SUFFIX@
}

/// Whether `name` is listed among the backups of `filename`.
pub open spec fn is_backup_of(filename: Seq<char>, name: Seq<char>) -> bool {
    has_prefix(name, filename) && has_suffix(name, BACKUP_SUFFIX@)
}

/// The backups of `filename` among `names`, with repetitions.
pub open spec fn backups_among(filename: Seq<char>, names: Seq<Seq<char>>) -> Multiset<Seq<char>>
    decreases names.len(),
{
    if names.len() == 0 {
        Multiset::empty()
    } else {
        let rest = backups_among(filename, names.drop_last());
        if is_backup_of(filename, names.last()) {
            rest.insert(names.last())
        } else {
            rest
        }
    }
}

/// Newest first: no entry sorts before one that follows it.
pub open spec fn newest_first(s: Seq<Seq<char>>) -> bool {
    forall|i: int, j: int| 0 <= i < j < s.len() ==> !text_lt(#[trigger] s[i], #[trigger] s[j])
}

/// Number of '.' separators in a text.
pub open spec fn dots(s: Seq<char>) -> nat
    decreases s.len(),
{
    if s.len() == 0 {
        0
    } else {
        dots(s.drop_last()) + if s.last() == '.' { 1nat } else { 0nat }
    }
}

pub open spec fn no_dots(s: Seq<char>) -> bool {
    forall|i: int| 0 <= i < s.len() ==> s[i] != '.'
}

/// `s` without its last `k` dot-separated segments (and the dots before them).
pub open spec fn drop_segments(s: Seq<char>, k: nat) -> Seq<char>
    decreases s.len(),
{
    if k == 0 || s.len() == 0 {
        s
    } else if s.last() == '.' {
        drop_segments(s.drop_last(), (k - 1) as nat)
    } else {
        drop_segments(s.drop_last(), k)
    }
}

/// The configuration file that a backup name restores, if the name splits
/// into a file name, a timestamp and the suffix.
pub open spec fn restore_target_of(name: Seq<char>) -> Option<Seq<char>> {
    if dots(name) >= 2 {
        Some(drop_segments(name, 2))
    } else {
        None
    }
}

pub proof fn lemma_dots_no_dots(a: Seq<char>, b: Seq<char>)
    requires
        no_dots(b),
    ensures
        dots(a + b) == dots(a),
        drop_segments(a + b, 1) == drop_segments(a, 1),
        drop_segments(a + b, 2) == drop_segments(a, 2),
    decreases b.len(),
{
    if b.len() > 0 {
        let c = b.drop_last();
        assert((a + b).drop_last() =~= a + c);
        assert((a + b).last() == b.last());
        lemma_dots_no_dots(a, c);
    } else {
        assert(a + b =~= a);
    }
}

pub proof fn lemma_dot_pushed(a: Seq<char>)
    ensures
        dots(a.push('.')) == dots(a) + 1,
        drop_segments(a.push('.'), 1) == a,
        drop_segments(a.push('.'), 2) == drop_segments(a, 1),
{
    assert(a.push('.').drop_last() =~= a);
    assert(drop_segments(a, 0) == a);
}

/// Restoring the backup of `filename` taken at a timestamp without dots
/// writes to `filename` again: the name round-trips through the restore target.
pub proof fn lemma_restore_target_of_backup(filename: Seq<char>, timestamp: Seq<char>)
    requires
        no_dots(timestamp),
    ensures
        restore_target_of(backup_name_of(filename, timestamp)) == Some(filename),
{
    reveal_strlit(".bak");
    let bak = seq!['b', 'a', 'k'];
    assert(BACKUP_SUFFIX@ =~= seq!['.'] + bak);
    let first = filename.push('.');
    let second = (first + timestamp).push('.');
    assert(backup_name_of(filename, timestamp) =~= second + bak);
    assert(no_dots(bak));
    lemma_dots_no_dots(second, bak);
    lemma_dot_pushed(first + timestamp);
    lemma_dots_no_dots(first, timestamp);
    lemma_dot_pushed(filename);
}

/// A write that backs up `filename` adds exactly one entry to its backup listing.
pub proof fn lemma_backup_adds_one_entry(filename: Seq<char>, timestamp: Seq<char>, names: Seq<Seq<char>>)
    ensures
        is_backup_of(filename, backup_name_of(filename, timestamp)),
        backups_among(filename, names.push(backup_name_of(filename, timestamp)))
            == backups_among(filename, names).insert(backup_name_of(filename, timestamp)),
        backups_among(filename, names.push(backup_name_of(filename, timestamp))).len()
            == backups_among(filename, names).len() + 1,
{
    let b = backup_name_of(filename, timestamp);
    assert(b.subrange(0, filename.len() as int) =~= filename);
    assert(b.subrange(b.len() - BACKUP_SUFFIX@.len(), b.len() as int) =~= BACKUP_SUFFIX@);
    assert(names.push(b).drop_last() =~= names);
}

/// Builds `<filename>.<timestamp>.bak`.
pub fn backup_file_name(filename: &str, timestamp: &str) -> (r: String)
    ensures
        r@ == backup_name_of(filename@, timestamp@),
{
    let mut r = String::from_str(filename);
    r.append(".");
    r.append(timestamp);
    r.append(BACKUP_SUFFIX);
    proof {
        reveal_strlit(".");
    }
    r
}

/// Keeps the names that are backups of `filename` and orders them newest first.
pub fn select_backups(filename: &str, names: &Vec<String>) -> (r: Vec<String>)
    ensures
        views(r@).to_multiset() == backups_among(filename@, views(names@)),
        newest_first(views(r@)),
{
    let f = chars_of(filename);
    let suffix = chars_of(BACKUP_SUFFIX);
    let mut out: Vec<String> = Vec::new();
    let mut keys: Vec<Vec<char>> = Vec::new();
    let mut i: usize = 0;
    while i < names.len()
        invariant
            f@ == filename@,
            suffix@ == BACKUP_SUFFIX@,
            i <= names@.len(),
            keys@.len() == out@.len(),
            forall|k: int| 0 <= k < out@.len() ==> (#[trigger] keys@[k])@ == out@[k]@,
            views(out@).to_multiset() == backups_among(filename@, views(names@.subrange(0, i as int))),
            newest_first(views(out@)),
        decreases names@.len() - i,
    {
        let name = &names[i];
        let n = chars_of(name.as_str());
        proof {
            assert(views(names@.subrange(0, i as int + 1)).drop_last() =~= views(names@.subrange(0, i as int)));
            assert(views(names@.subrange(0, i as int + 1)).last() == name@);
        }
        if starts_with_chars(&n, &f) && ends_with_chars(&n, &suffix) {
            let mut p: usize = 0;
            while p < keys.len() && !chars_lt(&keys[p], &n)
                invariant
                    p <= keys@.len(),
                    keys@.len() == out@.len(),
                    forall|k: int| 0 <= k < out@.len() ==> (#[trigger] keys@[k])@ == out@[k]@,
                    forall|k: int| 0 <= k < p ==> !text_lt((#[trigger] keys@[k])@, n@),
                decreases keys@.len() - p,
            {
                p += 1;
            }
            let ghost old_views = views(out@);
            proof {
                assert forall|k: int| 0 <= k < p implies !text_lt(#[trigger] old_views[k], n@) by {
                    assert(keys@[k]@ == out@[k]@);
                }
                assert forall|j: int| p <= j < old_views.len() implies !text_lt(n@, #[trigger] old_views[j]) by {
                    assert(text_lt(old_views[p as int], n@));
                    if j == p {
                        if text_lt(n@, old_views[j]) {
                            lemma_text_lt_transitive(n@, old_views[j], n@);
                            lemma_text_lt_irreflexive(n@);
                        }
                    } else {
                        assert(!text_lt(old_views[p as int], old_views[j]));
                        if text_lt(n@, old_views[j]) {
                            lemma_text_lt_transitive(old_views[p as int], n@, old_views[j]);
                        }
                    }
                }
            }
            out.insert(p, name.clone());
            keys.insert(p, n);
            proof {
                assert(views(out@) =~= old_views.insert(p as int, name@));
                let nv = views(out@);
                let ins = old_views.insert(p as int, name@);
                assert(nv == ins);
                assert forall|k: int| p < k < nv.len() implies nv[k] == old_views[k - 1] by {
                    assert(ins[k] == old_views[k - 1]);
                }
                assert forall|k: int| 0 <= k < p implies nv[k] == old_views[k] by {
                    assert(ins[k] == old_views[k]);
                }
                assert forall|a: int, b: int| 0 <= a < b < nv.len() implies !text_lt(#[trigger] nv[a], #[trigger] nv[b]) by {
                    if b < p {
                        assert(nv[a] == old_views[a]);
                        assert(nv[b] == old_views[b]);
                    } else if a < p && b == p {
                        assert(nv[a] == old_views[a]);
                        assert(nv[b] == n@);
                    } else if a < p && b > p {
                        assert(nv[a] == old_views[a]);
                        assert(nv[b] == old_views[b - 1]);
                    } else if a == p {
                        assert(nv[b] == old_views[b - 1]);
                    } else {
                        assert(nv[a] == old_views[a - 1]);
                        assert(nv[b] == old_views[b - 1]);
                    }
                }
            }
        }
        i += 1;
    }
    proof {
        assert(names@.subrange(0, names@.len() as int) =~= names@);
    }
    out
}

/// The configuration file that `backup_name` restores: the name without its
/// last two dot-separated segments (timestamp and suffix). A name with fewer
/// than two dots is refused.
pub fn restore_target(backup_name: &str) -> (r: Option<String>)
    ensures
        r matches Some(t) ==> restore_target_of(backup_name@) == Some(t@),
        r is None ==> restore_target_of(backup_name@) is None,
{
    let s = chars_of(backup_name);
    let mut end: usize = s.len();
    let mut seen: usize = 0;
    proof {
        assert(s@.subrange(0, s@.len() as int) =~= s@);
    }
    while end > 0 && seen < 2
        invariant
            end <= s@.len(),
            seen <= 2,
            dots(s@) == dots(s@.subrange(0, end as int)) + seen,
            drop_segments(s@, 2) == drop_segments(s@.subrange(0, end as int), (2 - seen) as nat),
        decreases end,
    {
        proof {
            assert(s@.subrange(0, end as int).drop_last() =~= s@.subrange(0, end as int - 1));
        }
        if s[end - 1] == '.' {
            seen += 1;
        }
        end -= 1;
    }
    if seen < 2 {
        assert(dots(s@.subrange(0, 0)) == 0);
        None
    } else {
        let mut t: Vec<char> = Vec::new();
        let mut k: usize = 0;
        while k < end
            invariant
                k <= end <= s@.len(),
                t@ == s@.subrange(0, k as int),
            decreases end - k,
        {
            t.push(s[k]);
            k += 1;
        }
        Some(crate::text::string_of_chars(&t))
    }
}

} // verus!
