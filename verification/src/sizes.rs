//! Sizes: totals over the files of a walk, and listings ordered from the
//! largest item down.
use vstd::prelude::*;

verus! {

/// A listed item with a size in bytes.
pub trait SizeKey {
    /// The size of the item, in bytes.
    spec fn size_key(&self) -> u64;

    /// The size of the item, in bytes.
    fn size(&self) -> (r: u64)
        ensures
            r == self.size_key(),
    ;
}

/// The number of items from index `i` on that are at least `key` in size,
/// counted up to the first one that is smaller.
pub open spec fn insert_index<T: SizeKey>(s: Seq<T>, key: u64, i: int) -> int
    decreases s.len() - i,
{
    if 0 <= i < s.len() && s[i].size_key() >= key {
        insert_index(s, key, i + 1)
    } else {
        i
    }
}

/// `s` ordered from the largest size down, items of equal size in the order
/// in which they came: each item, taken in turn, goes after every item
/// already placed that is at least as large.
pub open spec fn sort_by_size<T: SizeKey>(s: Seq<T>) -> Seq<T>
    decreases s.len(),
{
    if s.len() == 0 {
        s
    } else {
        let r = sort_by_size(s.drop_last());
        r.insert(insert_index(r, s.last().size_key(), 0), s.last())
    }
}

/// No item is smaller than one after it.
pub open spec fn is_sorted_by_size<T: SizeKey>(s: Seq<T>) -> bool {
    forall|i: int, j: int| 0 <= i < j < s.len() ==> s[i].size_key() >= s[j].size_key()
}

/// The items of `s` of size `key`, in order.
pub open spec fn of_size<T: SizeKey>(s: Seq<T>, key: u64) -> Seq<T> {
    s.filter(|x: T| x.size_key() == key)
}

/// The place where an item of size `key` goes: every item before it is at
/// least as large; the item at it, if any, is smaller.
pub proof fn lemma_insert_index<T: SizeKey>(s: Seq<T>, key: u64, i: int)
    requires
        0 <= i <= s.len(),
    ensures
        i <= insert_index(s, key, i) <= s.len(),
        forall|k: int| i <= k < insert_index(s, key, i) ==> #[trigger] s[k].size_key() >= key,
        insert_index(s, key, i) < s.len() ==> s[insert_index(s, key, i)].size_key() < key,
    decreases s.len() - i,
{
    if i < s.len() && s[i].size_key() >= key {
        lemma_insert_index(s, key, i + 1);
    }
}

/// With no item satisfying `pred`, filtering leaves nothing.
proof fn lemma_filter_none<A>(s: Seq<A>, pred: spec_fn(A) -> bool)
    requires
        forall|i: int| 0 <= i < s.len() ==> !pred(#[trigger] s[i]),
    ensures
        s.filter(pred) =~= Seq::<A>::empty(),
    decreases s.len(),
{
    reveal(Seq::filter);
    if s.len() > 0 {
        lemma_filter_none(s.drop_last(), pred);
    }
}

/// The ordering is sorted, keeps every item (as a multiset) and keeps the
/// order of the items of each size.
pub proof fn lemma_sort_by_size<T: SizeKey>(s: Seq<T>)
    ensures
        sort_by_size(s).len() == s.len(),
        is_sorted_by_size(sort_by_size(s)),
        sort_by_size(s).to_multiset() == s.to_multiset(),
        forall|key: u64| #[trigger] of_size(sort_by_size(s), key) == of_size(s, key),
    decreases s.len(),
{
    broadcast use vstd::seq_lib::group_seq_properties;

    if s.len() == 0 {
        return ;
    }
    let d = s.drop_last();
    let x = s.last();
    let r = sort_by_size(d);
    lemma_sort_by_size(d);
    let p = insert_index(r, x.size_key(), 0);
    lemma_insert_index(r, x.size_key(), 0);
    let out = r.insert(p, x);
    assert(out == sort_by_size(s));
    let a = r.subrange(0, p);
    let b = r.subrange(p, r.len() as int);
    assert(r =~= a + b);
    assert(out =~= a.push(x) + b);
    // sorted
    assert forall|i: int, j: int| 0 <= i < j < out.len() implies out[i].size_key()
        >= out[j].size_key() by {
        if j < p {
            assert(out[i] == r[i] && out[j] == r[j]);
        } else if j == p {
            assert(out[i] == r[i]);
        } else if i < p {
            assert(out[i] == r[i] && out[j] == r[j - 1]);
        } else if i == p {
            assert(out[j] == r[j - 1]);
            if p < r.len() {
                assert(r[p].size_key() >= r[j - 1].size_key());
            }
        } else {
            assert(out[i] == r[i - 1] && out[j] == r[j - 1]);
        }
    }
    // same items
    assert(s =~= d.push(x));
    vstd::seq_lib::lemma_multiset_commutative(a.push(x), b);
    vstd::seq_lib::lemma_multiset_commutative(a, b);
    assert(out.to_multiset() =~= s.to_multiset());
    // same order within each size
    assert forall|key: u64| #[trigger] of_size(out, key) == of_size(s, key) by {
        let pred = |y: T| y.size_key() == key;
        reveal(Seq::filter);
        Seq::filter_distributes_over_add(a.push(x), b, pred);
        Seq::filter_distributes_over_add(a, b, pred);
        assert(a.push(x).drop_last() =~= a);
        assert(s.drop_last() =~= d);
        if key == x.size_key() {
            assert forall|i: int| 0 <= i < b.len() implies !pred(#[trigger] b[i]) by {
                assert(b[i] == r[p + i]);
                assert(r[p].size_key() >= r[p + i].size_key());
            }
            lemma_filter_none(b, pred);
            assert(of_size(out, key) =~= of_size(r, key).push(x));
        } else {
            assert(of_size(out, key) =~= of_size(r, key));
        }
    }
}

/// Orders items from the largest down, keeping the order of items of equal
/// size (the stable sort by decreasing size that the listings use).
pub fn sort_by_size_desc<T: SizeKey>(items: Vec<T>) -> (r: Vec<T>)
    ensures
        r@ == sort_by_size(items@),
{
    let ghost orig = items@;
    let mut rest = items;
    let mut result: Vec<T> = Vec::new();
    let n = rest.len();
    let mut i: usize = 0;
    assert(orig.take(0) =~= Seq::<T>::empty());
    while i < n
        invariant
            n == orig.len(),
            i <= n,
            rest@ == orig.skip(i as int),
            result@ == sort_by_size(orig.take(i as int)),
        decreases n - i,
    {
        let x = rest.remove(0);
        let key = x.size();
        let ghost placed = result@;
        proof {
            lemma_insert_index(placed, key, 0);
        }
        let mut j: usize = 0;
        loop
            invariant
                result@ == placed,
                j <= result.len(),
                insert_index(placed, key, 0) == insert_index(placed, key, j as int),
            ensures
                result@ == placed,
                j == insert_index(placed, key, 0),
            decreases result.len() - j,
        {
            if j >= result.len() || result[j].size() < key {
                break;
            }
            j = j + 1;
        }
        result.insert(j, x);
        proof {
            assert(orig.take(i + 1).drop_last() =~= orig.take(i as int));
            assert(orig.take(i + 1).last() == x);
            assert(rest@ =~= orig.skip(i + 1));
        }
        i = i + 1;
    }
    assert(orig.take(n as int) =~= orig);
    result
}

/// An entry met while walking a directory tree.
#[derive(Clone, Copy, Debug, PartialEq, Eq)]
pub struct WalkEntry {
    /// The entry is a regular file.
    pub is_file: bool,
    /// Its length in bytes, when its metadata could be read.
    pub size: Option<u64>,
}

/// Totals over the files of a walk.
#[derive(Clone, Copy, Debug, PartialEq, Eq)]
pub struct FileTally {
    /// The bytes of all files, a file whose length is unknown counting 0.
    pub total_size: u64,
    /// The number of files.
    pub file_count: usize,
}

/// The length a walk entry adds to a total: a file's known length, else 0.
pub open spec fn entry_bytes(e: WalkEntry) -> nat {
    if e.is_file {
        match e.size {
            Some(n) => n as nat,
            None => 0,
        }
    } else {
        0
    }
}

/// The bytes of the files among `entries`.
pub open spec fn files_bytes(entries: Seq<WalkEntry>) -> nat
    decreases entries.len(),
{
    if entries.len() == 0 {
        0
    } else {
        files_bytes(entries.drop_last()) + entry_bytes(entries.last())
    }
}

/// The number of files among `entries`.
pub open spec fn files_count(entries: Seq<WalkEntry>) -> nat
    decreases entries.len(),
{
    if entries.len() == 0 {
        0
    } else {
        files_count(entries.drop_last()) + if entries.last().is_file {
            1nat
        } else {
            0nat
        }
    }
}

/// Totals add up over a concatenation of walks.
pub proof fn lemma_tally_additive(a: Seq<WalkEntry>, b: Seq<WalkEntry>)
    ensures
        files_bytes(a + b) == files_bytes(a) + files_bytes(b),
        files_count(a + b) == files_count(a) + files_count(b),
    decreases b.len(),
{
    if b.len() == 0 {
        assert(a + b =~= a);
    } else {
        lemma_tally_additive(a, b.drop_last());
        assert((a + b).drop_last() =~= a + b.drop_last());
        assert((a + b).last() == b.last());
    }
}

/// A single entry counts once when it is a file, with its length when that
/// is known and 0 otherwise; anything else counts nothing.
pub proof fn lemma_tally_single(e: WalkEntry)
    ensures
        files_count(seq![e]) == (if e.is_file {
            1nat
        } else {
            0nat
        }),
        files_bytes(seq![e]) == (if e.is_file && e.size is Some {
            e.size->0 as nat
        } else {
            0nat
        }),
{
    let s = seq![e];
    assert(s.drop_last() =~= Seq::<WalkEntry>::empty());
    assert(files_count(s.drop_last()) == 0);
    assert(files_bytes(s.drop_last()) == 0);
    assert(s.last() == e);
}

/// A prefix holds no more bytes than the whole.
pub proof fn lemma_files_bytes_prefix(entries: Seq<WalkEntry>, i: int)
    requires
        0 <= i <= entries.len(),
    ensures
        files_bytes(entries.take(i)) <= files_bytes(entries),
    decreases entries.len() - i,
{
    if i < entries.len() {
        lemma_files_bytes_prefix(entries, i + 1);
        assert(entries.take(i + 1).drop_last() =~= entries.take(i));
    } else {
        assert(entries.take(i) =~= entries);
    }
}

/// The number of files and their total length (`get_dir_size`,
/// `get_recycle_bin_stats`, `get_temp_junk_stats` add up a walk this way).
pub fn tally_files(entries: &Vec<WalkEntry>) -> (r: FileTally)
    requires
        files_bytes(entries@) <= u64::MAX,
    ensures
        r.total_size == files_bytes(entries@),
        r.file_count == files_count(entries@),
{
    let mut total: u64 = 0;
    let mut count: usize = 0;
    let n = entries.len();
    for i in 0..n
        invariant
            n == entries@.len(),
            files_bytes(entries@) <= u64::MAX,
            total == files_bytes(entries@.take(i as int)),
            count == files_count(entries@.take(i as int)),
            count <= i,
    {
        let e = entries[i];
        proof {
            assert(entries@.take(i + 1).drop_last() =~= entries@.take(i as int));
            lemma_files_bytes_prefix(entries@, i + 1);
        }
        if e.is_file {
            let len = match e.size {
                Some(s) => s,
                None => 0,
            };
            total = total + len;
            count = count + 1;
        }
    }
    assert(entries@.take(n as int) =~= entries@);
    FileTally { total_size: total, file_count: count }
}

} // verus!
