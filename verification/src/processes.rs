use vstd::prelude::*;
use vstd::utf8::is_ascii_chars;

verus! {

/// A running process offered on the setup screen's "detect running apps"
/// checklist.
#[derive(Debug)]
pub struct RunningProcess {
    pub pid: u32,
    pub process_name: String,
}

impl RunningProcess {
    /// The process id and the executable name.
    pub open spec fn entry(self) -> (u32, Seq<char>) {
        (self.pid, self.process_name@)
    }
}

/// The lower-case form of a text, as `str::to_lowercase` gives it.
pub uninterp spec fn lowercase(s: Seq<char>) -> Seq<char>;

/// The characters of `s.to_lowercase()`. Wraps `str::to_lowercase` (whose
/// Unicode case tables are not restated here): the result is named
/// `lowercase` of the input.
#[verifier::external_body]
fn lowercase_chars(s: &str) -> (r: Vec<char>)
    ensures
        r@ == lowercase(s@),
{
    s.to_lowercase().chars().collect()
}

/// A character with ASCII upper-case letters folded to lower case.
pub open spec fn ascii_fold(c: char) -> char {
    if 'A' <= c && c <= 'Z' {
        ((c as u32) + 32) as char
    } else {
        c
    }
}

/// An ASCII text in lower case: `A`..`Z` become `a`..`z`, every other
/// character stays.
pub open spec fn ascii_lower(s: Seq<char>) -> Seq<char> {
    s.map_values(|c: char| ascii_fold(c))
}

/// The key a name is sorted by: its lower-case form. For an ASCII name this
/// is the name with `A`..`Z` folded to `a`..`z` (which is what
/// `str::to_lowercase` does to ASCII text); for any other name it is what
/// `str::to_lowercase` gives.
pub open spec fn name_key(s: Seq<char>) -> Seq<char> {
    if is_ascii_chars(s) {
        ascii_lower(s)
    } else {
        lowercase(s)
    }
}

fn fold_char(c: char) -> (r: char)
    ensures
        r == ascii_fold(c),
{
    if 'A' <= c && c <= 'Z' {
        ((c as u8) + 32) as char
    } else {
        c
    }
}

/// The sort key of a name.
fn sort_key(s: &str) -> (r: Vec<char>)
    ensures
        r@ == name_key(s@),
{
    if !s.is_ascii() {
        return lowercase_chars(s);
    }
    let n = s.unicode_len();
    let mut key: Vec<char> = Vec::new();
    let mut i: usize = 0;
    while i < n
        invariant
            n == s@.len(),
            i <= n,
            key@ =~= ascii_lower(s@.take(i as int)),
        decreases n - i,
    {
        key.push(fold_char(s.get_char(i)));
        i = i + 1;
    }
    assert(s@.take(n as int) =~= s@);
    key
}

/// `a` comes no later than `b` in the order of `String`'s comparison, which
/// compares character by character (UTF-8 keeps the order of code points).
pub open spec fn lex_le(a: Seq<char>, b: Seq<char>) -> bool
    decreases a.len(),
{
    if a.len() == 0 {
        true
    } else if b.len() == 0 {
        false
    } else if a[0] != b[0] {
        a[0] < b[0]
    } else {
        lex_le(a.drop_first(), b.drop_first())
    }
}

pub proof fn lemma_lex_le_reflexive(a: Seq<char>)
    ensures
        lex_le(a, a),
    decreases a.len(),
{
    if a.len() > 0 {
        lemma_lex_le_reflexive(a.drop_first());
    }
}

pub proof fn lemma_lex_le_total(a: Seq<char>, b: Seq<char>)
    ensures
        lex_le(a, b) || lex_le(b, a),
    decreases a.len(),
{
    if a.len() > 0 && b.len() > 0 {
        if a[0] == b[0] {
            lemma_lex_le_total(a.drop_first(), b.drop_first());
        }
    }
}

pub proof fn lemma_lex_le_transitive(a: Seq<char>, b: Seq<char>, c: Seq<char>)
    requires
        lex_le(a, b),
        lex_le(b, c),
    ensures
        lex_le(a, c),
    decreases a.len(),
{
    if a.len() > 0 && b.len() > 0 && c.len() > 0 && a[0] == b[0] && b[0] == c[0] {
        lemma_lex_le_transitive(a.drop_first(), b.drop_first(), c.drop_first());
    }
}

/// Compares two sort keys.
fn key_le(a: &Vec<char>, b: &Vec<char>) -> (r: bool)
    ensures
        r == lex_le(a@, b@),
{
    let mut i: usize = 0;
    assert(a@.skip(0) =~= a@);
    assert(b@.skip(0) =~= b@);
    loop
        invariant
            i <= a.len(),
            i <= b.len(),
            lex_le(a@, b@) == lex_le(a@.skip(i as int), b@.skip(i as int)),
        decreases a.len() - i,
    {
        if i == a.len() {
            return true;
        }
        if i == b.len() {
            return false;
        }
        if a[i] != b[i] {
            return a[i] < b[i];
        }
        assert(a@.skip(i as int).drop_first() =~= a@.skip(i + 1));
        assert(b@.skip(i as int).drop_first() =~= b@.skip(i + 1));
        i = i + 1;
    }
}

/// The process table as (pid, executable name) pairs.
pub open spec fn raw_entries(raw: Seq<(u32, String)>) -> Seq<(u32, Seq<char>)> {
    raw.map_values(|p: (u32, String)| (p.0, p.1@))
}

/// Some entry of `entries` has the executable name `name`.
pub open spec fn name_seen(entries: Seq<(u32, Seq<char>)>, name: Seq<char>) -> bool {
    exists|j: int| 0 <= j < entries.len() && #[trigger] entries[j].1 == name
}

/// The entries kept for listing, in table order: each non-empty executable
/// name once, with the pid of its first entry.
pub open spec fn distinct_named(entries: Seq<(u32, Seq<char>)>) -> Seq<(u32, Seq<char>)>
    decreases entries.len(),
{
    if entries.len() == 0 {
        Seq::empty()
    } else {
        let rest = distinct_named(entries.drop_last());
        let x = entries.last();
        if x.1.len() == 0 || name_seen(entries.drop_last(), x.1) {
            rest
        } else {
            rest.push(x)
        }
    }
}

/// `listing` is ordered by lower-cased name.
pub open spec fn sorted_by_name(listing: Seq<(u32, Seq<char>)>) -> bool {
    forall|a: int, b: int|
        0 <= a < b < listing.len() ==> #[trigger] lex_le(name_key(listing[a].1), name_key(listing[b].1))
}

/// `listing` holds the entries of `source` at the places `p`, entries whose
/// lower-cased names are equal keeping their order in `source`.
pub open spec fn arranges(p: Seq<int>, listing: Seq<(u32, Seq<char>)>, source: Seq<(u32, Seq<char>)>) -> bool {
    &&& p.len() == listing.len()
    &&& listing.len() == source.len()
    &&& forall|k: int| 0 <= k < p.len() ==> 0 <= #[trigger] p[k] < source.len() && listing[k] == source[p[k]]
    &&& forall|a: int, b: int| 0 <= a < b < p.len() ==> #[trigger] p[a] != #[trigger] p[b]
    &&& forall|j: int| 0 <= j < source.len() ==> #[trigger] p.contains(j)
    &&& forall|a: int, b: int|
        0 <= a < b < p.len() && name_key(listing[a].1) == name_key(listing[b].1) ==> #[trigger] p[a] < #[trigger] p[b]
}

/// `listing` is `source` sorted stably by lower-cased name.
pub open spec fn stable_sort_of(listing: Seq<(u32, Seq<char>)>, source: Seq<(u32, Seq<char>)>) -> bool {
    &&& sorted_by_name(listing)
    &&& exists|p: Seq<int>| arranges(p, listing, source)
}

/// Turns the process table (pid, executable name) into the checklist: empty
/// names dropped, each name once (with the pid of its first entry), sorted by
/// lower-cased name, entries with equal lower-cased names in table order.
pub fn collect_running_processes(raw: Vec<(u32, String)>) -> (listing: Vec<RunningProcess>)
    ensures
        stable_sort_of(
            listing@.map_values(|p: RunningProcess| p.entry()),
            distinct_named(raw_entries(raw@)),
        ),
{
    let kept = keep_distinct_names(&raw);
    sort_by_lowercase_name(kept)
}

fn keep_distinct_names(raw: &Vec<(u32, String)>) -> (kept: Vec<RunningProcess>)
    ensures
        kept@.map_values(|p: RunningProcess| p.entry()) == distinct_named(raw_entries(raw@)),
{
    let ghost entries = raw_entries(raw@);
    let mut kept: Vec<RunningProcess> = Vec::new();
    let n = raw.len();
    let mut i: usize = 0;
    assert(entries.take(0) =~= Seq::<(u32, Seq<char>)>::empty());
    while i < n
        invariant
            n == raw.len(),
            i <= n,
            entries == raw_entries(raw@),
            kept@.map_values(|p: RunningProcess| p.entry()) == distinct_named(entries.take(i as int)),
        decreases n - i,
    {
        let ghost prefix = entries.take(i as int);
        let mut seen = false;
        if !raw[i].1.as_str().is_empty() {
            let mut j: usize = 0;
            while j < i
                invariant
                    n == raw.len(),
                    j <= i < n,
                    entries == raw_entries(raw@),
                    seen == exists|k: int| 0 <= k < j && #[trigger] entries[k].1 == entries[i as int].1,
                decreases i - j,
            {
                proof {
                    assert(entries[j as int] == (raw@[j as int].0, raw@[j as int].1@));
                    assert(entries[i as int] == (raw@[i as int].0, raw@[i as int].1@));
                }
                let same = raw[j].1 == raw[i].1;
                proof {
                    assert(same == (entries[j as int].1 == entries[i as int].1));
                }
                if same {
                    seen = true;
                }
                j = j + 1;
            }
            proof {
                if seen {
                    let k = choose|k: int| 0 <= k < i && #[trigger] entries[k].1 == entries[i as int].1;
                    assert(prefix[k].1 == entries[i as int].1);
                }
                if name_seen(prefix, entries[i as int].1) {
                    let k = choose|k: int| 0 <= k < prefix.len() && #[trigger] prefix[k].1 == entries[i as int].1;
                    assert(entries[k].1 == entries[i as int].1);
                }
            }
            if !seen {
                let entry = RunningProcess { pid: raw[i].0, process_name: raw[i].1.clone() };
                kept.push(entry);
            }
        }
        proof {
            assert(entries.take(i + 1).drop_last() =~= prefix);
            assert(entries.take(i + 1).last() == entries[i as int]);
            assert(kept@.map_values(|p: RunningProcess| p.entry()) =~= distinct_named(entries.take(i + 1)));
        }
        i = i + 1;
    }
    assert(entries.take(n as int) =~= entries);
    kept
}

/// Sort keys in order.
pub open spec fn keys_sorted(keys: Seq<Seq<char>>) -> bool {
    forall|a: int, b: int| 0 <= a < b < keys.len() ==> #[trigger] lex_le(keys[a], keys[b])
}

/// Equal keys keep the order of their places in the source.
pub open spec fn keys_stable(keys: Seq<Seq<char>>, perm: Seq<int>) -> bool {
    forall|a: int, b: int|
        0 <= a < b < keys.len() && keys[a] == keys[b] ==> #[trigger] perm[a] < #[trigger] perm[b]
}

/// `perm` holds each place below `n` once.
pub open spec fn places_ok(perm: Seq<int>, n: int) -> bool {
    &&& forall|k: int| 0 <= k < perm.len() ==> 0 <= #[trigger] perm[k] < n
    &&& forall|a: int, b: int| 0 <= a < b < perm.len() ==> #[trigger] perm[a] != #[trigger] perm[b]
    &&& forall|j: int| 0 <= j < n ==> #[trigger] perm.contains(j)
}

/// Inserting the next source entry (place `i`) after every key that is not
/// greater than its own keeps the keys sorted and stable.
proof fn lemma_insert_in_order(keys: Seq<Seq<char>>, perm: Seq<int>, pos: int, kx: Seq<char>, i: int)
    requires
        keys.len() == perm.len() == i,
        0 <= pos <= i,
        keys_sorted(keys),
        keys_stable(keys, perm),
        places_ok(perm, i),
        forall|k: int| 0 <= k < pos ==> #[trigger] lex_le(keys[k], kx),
        pos < i ==> !lex_le(keys[pos], kx),
    ensures
        keys_sorted(keys.insert(pos, kx)),
        keys_stable(keys.insert(pos, kx), perm.insert(pos, i)),
        places_ok(perm.insert(pos, i), i + 1),
{
    let nk = keys.insert(pos, kx);
    let np = perm.insert(pos, i);
    // every key from `pos` on is greater than `kx`
    assert forall|m: int| pos <= m < i implies lex_le(kx, #[trigger] keys[m]) && keys[m] != kx by {
        lemma_lex_le_total(keys[pos], kx);
        if m > pos {
            assert(lex_le(keys[pos], keys[m]));
            lemma_lex_le_transitive(kx, keys[pos], keys[m]);
            if keys[m] == kx {
                assert(lex_le(keys[pos], kx));
            }
        } else {
            lemma_lex_le_reflexive(kx);
        }
    }
    assert forall|a: int, b: int| 0 <= a < b < nk.len() implies #[trigger] lex_le(nk[a], nk[b]) by {
        if a < pos && b < pos {
        } else if a < pos && b == pos {
        } else if a < pos && b > pos {
            assert(lex_le(keys[a], keys[b - 1]));
        } else if a == pos {
            assert(lex_le(kx, keys[b - 1]));
        } else {
            assert(lex_le(keys[a - 1], keys[b - 1]));
        }
    }
    assert forall|a: int, b: int| 0 <= a < b < nk.len() && nk[a] == nk[b] implies #[trigger] np[a] < #[trigger] np[b] by {
        if a < pos && b < pos {
            assert(perm[a] < perm[b]);
        } else if a < pos && b == pos {
            assert(0 <= perm[a] < i);
        } else if a < pos && b > pos {
            assert(perm[a] < perm[b - 1]);
        } else if a == pos {
            assert(keys[b - 1] != kx);
        } else {
            assert(perm[a - 1] < perm[b - 1]);
        }
    }
    assert forall|k: int| 0 <= k < np.len() implies 0 <= #[trigger] np[k] < i + 1 by {
        if k < pos {
            assert(0 <= perm[k] < i);
        } else if k > pos {
            assert(0 <= perm[k - 1] < i);
        }
    }
    assert forall|a: int, b: int| 0 <= a < b < np.len() implies #[trigger] np[a] != #[trigger] np[b] by {
        if a < pos && b < pos {
            assert(perm[a] != perm[b]);
        } else if a < pos && b == pos {
            assert(perm[a] < i);
        } else if a < pos && b > pos {
            assert(perm[a] != perm[b - 1]);
        } else if a == pos {
            assert(perm[b - 1] < i);
        } else {
            assert(perm[a - 1] != perm[b - 1]);
        }
    }
    assert forall|j: int| 0 <= j < i + 1 implies #[trigger] np.contains(j) by {
        if j == i {
            assert(np[pos] == i);
        } else {
            assert(perm.contains(j));
            let k = choose|k: int| 0 <= k < perm.len() && perm[k] == j;
            if k < pos {
                assert(np[k] == j);
            } else {
                assert(np[k + 1] == j);
            }
        }
    }
}

fn copy_entry(e: &RunningProcess) -> (r: RunningProcess)
    ensures
        r.entry() == e.entry(),
{
    RunningProcess { pid: e.pid, process_name: e.process_name.clone() }
}

fn sort_by_lowercase_name(source: Vec<RunningProcess>) -> (sorted: Vec<RunningProcess>)
    ensures
        stable_sort_of(
            sorted@.map_values(|p: RunningProcess| p.entry()),
            source@.map_values(|p: RunningProcess| p.entry()),
        ),
{
    let ghost src = source@.map_values(|p: RunningProcess| p.entry());
    let mut sorted: Vec<RunningProcess> = Vec::new();
    let mut keys: Vec<Vec<char>> = Vec::new();
    let ghost mut kseq: Seq<Seq<char>> = Seq::empty();
    let ghost mut perm: Seq<int> = Seq::empty();
    let n = source.len();
    let mut i: usize = 0;
    while i < n
        invariant
            n == source.len(),
            i <= n,
            src == source@.map_values(|p: RunningProcess| p.entry()),
            sorted.len() == i,
            keys.len() == i,
            kseq.len() == i,
            perm.len() == i,
            forall|k: int| 0 <= k < i ==> #[trigger] keys@[k]@ == kseq[k],
            forall|k: int|
                0 <= k < i ==> 0 <= #[trigger] perm[k] < n && sorted@[k].entry() == src[perm[k]]
                    && kseq[k] == name_key(sorted@[k].entry().1),
            keys_sorted(kseq),
            keys_stable(kseq, perm),
            places_ok(perm, i as int),
        decreases n - i,
    {
        let kx = sort_key(source[i].process_name.as_str());
        let mut pos: usize = 0;
        while pos < i && key_le(&keys[pos], &kx)
            invariant
                pos <= i,
                i == keys.len(),
                kseq.len() == i,
                forall|k: int| 0 <= k < i ==> #[trigger] keys@[k]@ == kseq[k],
                forall|k: int| 0 <= k < pos ==> #[trigger] lex_le(kseq[k], kx@),
            decreases i - pos,
        {
            pos = pos + 1;
        }
        proof {
            if pos < i {
                assert(keys@[pos as int]@ == kseq[pos as int]);
            }
            lemma_insert_in_order(kseq, perm, pos as int, kx@, i as int);
        }
        let ghost old_sorted = sorted@;
        let ghost old_keys = keys@;
        let ghost old_kseq = kseq;
        let ghost old_perm = perm;
        let entry = copy_entry(&source[i]);
        sorted.insert(pos, entry);
        keys.insert(pos, kx);
        proof {
            kseq = kseq.insert(pos as int, kx@);
            perm = perm.insert(pos as int, i as int);
            assert forall|k: int| 0 <= k < i + 1 implies #[trigger] keys@[k]@ == kseq[k] by {
                if k < pos {
                    assert(old_keys[k]@ == old_kseq[k]);
                } else if k > pos {
                    assert(old_keys[k - 1]@ == old_kseq[k - 1]);
                }
            }
            assert forall|k: int| 0 <= k < i + 1 implies 0 <= #[trigger] perm[k] < n && sorted@[k].entry()
                == src[perm[k]] && kseq[k] == name_key(sorted@[k].entry().1) by {
                if k < pos {
                    assert(old_perm[k] < n);
                } else if k > pos {
                    assert(old_perm[k - 1] < n);
                } else {
                    assert(src[i as int] == source@[i as int].entry());
                }
            }
        }
        i = i + 1;
    }
    proof {
        let listing = sorted@.map_values(|p: RunningProcess| p.entry());
        assert forall|k: int| 0 <= k < n implies #[trigger] kseq[k] == name_key(listing[k].1) by {
            assert(0 <= perm[k] < n);
            assert(listing[k] == sorted@[k].entry());
        }
        assert forall|a: int, b: int| 0 <= a < b < listing.len() implies #[trigger] lex_le(
            name_key(listing[a].1),
            name_key(listing[b].1),
        ) by {
            assert(kseq[a] == name_key(listing[a].1));
            assert(kseq[b] == name_key(listing[b].1));
            assert(lex_le(kseq[a], kseq[b]));
        }
        assert forall|k: int| 0 <= k < perm.len() implies 0 <= #[trigger] perm[k] < src.len() && listing[k]
            == src[perm[k]] by {
            assert(listing[k] == sorted@[k].entry());
        }
        assert forall|a: int, b: int|
            0 <= a < b < perm.len() && name_key(listing[a].1) == name_key(listing[b].1) implies #[trigger] perm[a]
            < #[trigger] perm[b] by {
            assert(kseq[a] == name_key(listing[a].1));
            assert(kseq[b] == name_key(listing[b].1));
        }
        assert forall|j: int| 0 <= j < src.len() implies #[trigger] perm.contains(j) by {
            assert(places_ok(perm, n as int));
        }
        assert(arranges(perm, listing, src));
    }
    sorted
}

/// Every kept entry is an entry of the table with a non-empty name, and it is
/// the first entry of the table with that name.
pub proof fn lemma_kept_are_first_entries(entries: Seq<(u32, Seq<char>)>)
    ensures
        forall|k: int| 0 <= k < distinct_named(entries).len() ==> {
            let x = #[trigger] distinct_named(entries)[k];
            &&& x.1.len() > 0
            &&& exists|j: int| 0 <= j < entries.len() && entries[j] == x && !name_seen(entries.take(j), x.1)
        },
    decreases entries.len(),
{
    if entries.len() > 0 {
        let prev = entries.drop_last();
        lemma_kept_are_first_entries(prev);
        let d = distinct_named(entries);
        let dp = distinct_named(prev);
        assert forall|k: int| 0 <= k < d.len() implies {
            let x = #[trigger] d[k];
            &&& x.1.len() > 0
            &&& exists|j: int| 0 <= j < entries.len() && entries[j] == x && !name_seen(entries.take(j), x.1)
        } by {
            if k < dp.len() {
                let x = dp[k];
                assert(d[k] == x);
                let j = choose|j: int| 0 <= j < prev.len() && prev[j] == x && !name_seen(prev.take(j), x.1);
                assert(entries.take(j) =~= prev.take(j));
                assert(entries[j] == x);
            } else {
                let j = entries.len() - 1;
                assert(entries.take(j) =~= prev);
                assert(entries[j] == d[k]);
            }
        }
    }
}

/// No two kept entries share a name.
pub proof fn lemma_kept_names_distinct(entries: Seq<(u32, Seq<char>)>)
    ensures
        forall|a: int, b: int|
            0 <= a < b < distinct_named(entries).len() ==> #[trigger] distinct_named(entries)[a].1
                != #[trigger] distinct_named(entries)[b].1,
    decreases entries.len(),
{
    if entries.len() > 0 {
        let prev = entries.drop_last();
        lemma_kept_names_distinct(prev);
        lemma_kept_are_first_entries(prev);
        let d = distinct_named(entries);
        let dp = distinct_named(prev);
        assert forall|a: int, b: int| 0 <= a < b < d.len() implies #[trigger] d[a].1 != #[trigger] d[b].1 by {
            if b < dp.len() {
                assert(d[a] == dp[a] && d[b] == dp[b]);
            } else {
                let x = dp[a];
                assert(d[a] == x);
                let j = choose|j: int| 0 <= j < prev.len() && prev[j] == x && !name_seen(prev.take(j), x.1);
                if d[b].1 == x.1 {
                    assert(prev[j].1 == entries.last().1);
                    assert(name_seen(prev, entries.last().1));
                }
            }
        }
    }
}

/// Every non-empty name of the table is kept.
pub proof fn lemma_every_name_kept(entries: Seq<(u32, Seq<char>)>, j: int)
    requires
        0 <= j < entries.len(),
        entries[j].1.len() > 0,
    ensures
        name_seen(distinct_named(entries), entries[j].1),
    decreases entries.len(),
{
    let prev = entries.drop_last();
    let d = distinct_named(entries);
    let dp = distinct_named(prev);
    if j < entries.len() - 1 {
        assert(prev[j] == entries[j]);
        lemma_every_name_kept(prev, j);
        let k = choose|k: int| 0 <= k < dp.len() && #[trigger] dp[k].1 == entries[j].1;
        assert(d[k] == dp[k]);
    } else if name_seen(prev, entries[j].1) {
        let i = choose|i: int| 0 <= i < prev.len() && #[trigger] prev[i].1 == entries[j].1;
        lemma_every_name_kept(prev, i);
        let k = choose|k: int| 0 <= k < dp.len() && #[trigger] dp[k].1 == prev[i].1;
        assert(d[k] == dp[k]);
    } else {
        assert(d[dp.len() as int] == entries[j]);
    }
}

/// The checklist names each process once: no two entries share a name.
pub proof fn lemma_listing_names_distinct(listing: Seq<(u32, Seq<char>)>, entries: Seq<(u32, Seq<char>)>)
    requires
        stable_sort_of(listing, distinct_named(entries)),
    ensures
        forall|a: int, b: int| 0 <= a < b < listing.len() ==> #[trigger] listing[a].1 != #[trigger] listing[b].1,
{
    let d = distinct_named(entries);
    lemma_kept_names_distinct(entries);
    let p = choose|p: Seq<int>| arranges(p, listing, d);
    assert forall|a: int, b: int| 0 <= a < b < listing.len() implies #[trigger] listing[a].1 != #[trigger] listing[b].1 by {
        assert(listing[a] == d[p[a]] && listing[b] == d[p[b]]);
        assert(p[a] != p[b]);
        assert(0 <= p[a] < d.len() && 0 <= p[b] < d.len());
        if p[a] < p[b] {
            assert(d[p[a]].1 != d[p[b]].1);
        } else {
            assert(d[p[b]].1 != d[p[a]].1);
        }
    }
}

/// Every kept entry is on the checklist.
pub proof fn lemma_listing_covers(listing: Seq<(u32, Seq<char>)>, entries: Seq<(u32, Seq<char>)>, j: int)
    requires
        stable_sort_of(listing, distinct_named(entries)),
        0 <= j < distinct_named(entries).len(),
    ensures
        listing.contains(distinct_named(entries)[j]),
{
    let d = distinct_named(entries);
    let p = choose|p: Seq<int>| arranges(p, listing, d);
    assert(p.contains(j));
    let k = choose|k: int| 0 <= k < p.len() && p[k] == j;
    assert(listing[k] == d[p[k]]);
}

/// `a` comes strictly before `b` in character order.
pub open spec fn lex_lt(a: Seq<char>, b: Seq<char>) -> bool {
    lex_le(a, b) && !lex_le(b, a)
}

/// On the checklist, of two ASCII names the one that comes first once `A`..`Z`
/// are read as `a`..`z` is listed first, whatever the order of the process
/// table.
pub proof fn lemma_ascii_names_in_case_folded_order(
    listing: Seq<(u32, Seq<char>)>,
    entries: Seq<(u32, Seq<char>)>,
    a: int,
    b: int,
)
    requires
        stable_sort_of(listing, distinct_named(entries)),
        0 <= a < listing.len(),
        0 <= b < listing.len(),
        is_ascii_chars(listing[a].1),
        is_ascii_chars(listing[b].1),
        lex_lt(ascii_lower(listing[a].1), ascii_lower(listing[b].1)),
    ensures
        a < b,
{
    if b < a {
        assert(lex_le(name_key(listing[b].1), name_key(listing[a].1)));
    } else if a == b {
        lemma_lex_le_reflexive(ascii_lower(listing[a].1));
    }
}

} // verus!
