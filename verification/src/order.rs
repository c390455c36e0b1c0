//! The order of texts, and lists of keys that are kept in order.
use crate::lists::lemma_pushed;
use vstd::prelude::*;

verus! {

/// Whether a text comes before another one: at the first place where they differ its character has
/// the smaller number, or it ends there.
pub open spec fn text_before(a: Seq<char>, b: Seq<char>) -> bool
    decreases a.len(),
{
    if b.len() == 0 {
        false
    } else if a.len() == 0 {
        true
    } else if a[0] != b[0] {
        (a[0] as int) < (b[0] as int)
    } else {
        text_before(a.skip(1), b.skip(1))
    }
}

fn char_before(x: char, y: char) -> (r: bool)
    ensures
        r == ((x as int) < (y as int)),
{
    (x as u32) < (y as u32)
}

/// Whether a text comes before another one.
pub fn comes_before(a: &[char], b: &[char]) -> (r: bool)
    ensures
        r == text_before(a@, b@),
{
    let mut i: usize = 0;
    assert(a@.skip(0) =~= a@);
    assert(b@.skip(0) =~= b@);
    while i < a.len() && i < b.len()
        invariant
            i <= a@.len(),
            i <= b@.len(),
            text_before(a@, b@) == text_before(a@.skip(i as int), b@.skip(i as int)),
        decreases a@.len() - i,
    {
        let x: char = a[i];
        let y: char = b[i];
        assert(a@.skip(i as int)[0] == x);
        assert(b@.skip(i as int)[0] == y);
        if x != y {
            return char_before(x, y);
        }
        assert(a@.skip(i as int).skip(1) =~= a@.skip(i + 1));
        assert(b@.skip(i as int).skip(1) =~= b@.skip(i + 1));
        i += 1;
    }
    i < b.len()
}

/// No text comes before itself, and of two different ones exactly one comes first.
pub proof fn law_texts_are_ordered(a: Seq<char>, b: Seq<char>)
    ensures
        !text_before(a, a),
        a != b ==> text_before(a, b) != text_before(b, a),
    decreases a.len(),
{
    if a.len() > 0 {
        law_texts_are_ordered(a.skip(1), a.skip(1));
    }
    if a.len() > 0 && b.len() > 0 {
        law_texts_are_ordered(a.skip(1), b.skip(1));
        if a[0] == b[0] && a != b {
            assert(a.skip(1) != b.skip(1)) by {
                if a.skip(1) == b.skip(1) {
                    assert(a =~= seq![a[0]] + a.skip(1));
                    assert(b =~= seq![b[0]] + b.skip(1));
                }
            }
        }
    } else if a.len() == 0 && b.len() == 0 {
        assert(a =~= b);
    }
}

/// What comes before something comes before all that follows it.
pub proof fn law_order_carries_over(a: Seq<char>, b: Seq<char>, c: Seq<char>)
    requires
        text_before(a, b),
        text_before(b, c),
    ensures
        text_before(a, c),
    decreases a.len(),
{
    if a.len() > 0 && b.len() > 0 && c.len() > 0 && a[0] == b[0] && b[0] == c[0] {
        law_order_carries_over(a.skip(1), b.skip(1), c.skip(1));
    }
}

/// A key: a number and a text.
pub type Key = (u32, Seq<char>);

/// Whether a key comes before another one: by its number, then by its text.
pub open spec fn key_before(a: Key, b: Key) -> bool {
    a.0 < b.0 || (a.0 == b.0 && text_before(a.1, b.1))
}

/// A list of keys with a further one at its place; a key that is there already is not repeated.
pub open spec fn inserted(keys: Seq<Key>, k: Key) -> Seq<Key>
    decreases keys.len(),
{
    if keys.len() == 0 {
        seq![k]
    } else if keys[0] == k {
        keys
    } else if key_before(k, keys[0]) {
        seq![k] + keys
    } else {
        seq![keys[0]] + inserted(keys.skip(1), k)
    }
}

/// The different keys of a list, in order.
pub open spec fn sorted_keys(keys: Seq<Key>) -> Seq<Key>
    decreases keys.len(),
{
    if keys.len() == 0 {
        seq![]
    } else {
        inserted(sorted_keys(keys.drop_last()), keys.last())
    }
}

/// Whether each key comes before the next one.
pub open spec fn ascending(keys: Seq<Key>) -> bool {
    forall|i: int, j: int| 0 <= i < j < keys.len() ==> #[trigger] key_before(keys[i], keys[j])
}

pub proof fn lemma_key_order(a: Key, b: Key)
    ensures
        a != b ==> key_before(a, b) != key_before(b, a),
        !key_before(a, a),
{
    law_texts_are_ordered(a.1, b.1);
}

proof fn lemma_key_chain(a: Key, b: Key, c: Key)
    requires
        key_before(a, b),
        key_before(b, c),
    ensures
        key_before(a, c),
{
    if a.0 == b.0 && b.0 == c.0 {
        law_order_carries_over(a.1, b.1, c.1);
    }
}

proof fn lemma_inserted(keys: Seq<Key>, k: Key)
    requires
        ascending(keys),
    ensures
        ascending(inserted(keys, k)),
        forall|x: Key| #[trigger] inserted(keys, k).contains(x) <==> keys.contains(x) || x == k,
    decreases keys.len(),
{
    let r = inserted(keys, k);
    if keys.len() == 0 {
        assert(r[0] == k);
    } else if keys[0] == k {
    } else if key_before(k, keys[0]) {
        assert forall|i: int, j: int| 0 <= i < j < r.len() implies #[trigger] key_before(
            r[i],
            r[j],
        ) by {
            if i == 0 {
                if j > 1 {
                    assert(key_before(keys[0], keys[j - 1]));
                    lemma_key_chain(k, keys[0], keys[j - 1]);
                }
            } else {
                assert(key_before(keys[i - 1], keys[j - 1]));
            }
        }
        assert forall|x: Key| #[trigger] r.contains(x) <==> keys.contains(x) || x == k by {
            if keys.contains(x) {
                let i = choose|i: int| 0 <= i < keys.len() && keys[i] == x;
                assert(r[i + 1] == x);
            }
            assert(r[0] == k);
            if r.contains(x) && x != k {
                let i = choose|i: int| 0 <= i < r.len() && r[i] == x;
                assert(keys[i - 1] == x);
            }
        }
    } else {
        let rest = keys.skip(1);
        assert forall|i: int, j: int| 0 <= i < j < rest.len() implies #[trigger] key_before(
            rest[i],
            rest[j],
        ) by {
            assert(key_before(keys[i + 1], keys[j + 1]));
        }
        lemma_inserted(rest, k);
        let tail = inserted(rest, k);
        lemma_key_order(k, keys[0]);
        assert forall|j: int| 0 <= j < tail.len() implies #[trigger] key_before(keys[0], tail[j]) by {
            assert(tail.contains(tail[j]));
            if tail[j] != k {
                assert(rest.contains(tail[j]));
                let m = choose|m: int| 0 <= m < rest.len() && rest[m] == tail[j];
                assert(key_before(keys[0], keys[m + 1]));
            }
        }
        assert forall|i: int, j: int| 0 <= i < j < r.len() implies #[trigger] key_before(
            r[i],
            r[j],
        ) by {
            if i == 0 {
                assert(r[j] == tail[j - 1]);
            } else {
                assert(key_before(tail[i - 1], tail[j - 1]));
            }
        }
        assert forall|x: Key| #[trigger] r.contains(x) <==> keys.contains(x) || x == k by {
            if keys.contains(x) {
                let i = choose|i: int| 0 <= i < keys.len() && keys[i] == x;
                if i == 0 {
                    assert(r[0] == x);
                } else {
                    assert(rest[i - 1] == x);
                    assert(tail.contains(x));
                }
            }
            if tail.contains(x) {
                let i = choose|i: int| 0 <= i < tail.len() && tail[i] == x;
                assert(r[i + 1] == x);
            }
            if r.contains(x) {
                let i = choose|i: int| 0 <= i < r.len() && r[i] == x;
                if i == 0 {
                    assert(keys[0] == x);
                } else {
                    assert(tail[i - 1] == x);
                    if rest.contains(x) {
                        let m = choose|m: int| 0 <= m < rest.len() && rest[m] == x;
                        assert(keys[m + 1] == x);
                    }
                }
            }
            assert(tail.contains(k));
        }
    }
}

/// The different keys of a list come in order, each once, and none is left out.
pub proof fn law_keys_are_sorted(keys: Seq<Key>)
    ensures
        ascending(sorted_keys(keys)),
        forall|x: Key| #[trigger] sorted_keys(keys).contains(x) <==> keys.contains(x),
    decreases keys.len(),
{
    if keys.len() > 0 {
        let rest = keys.drop_last();
        law_keys_are_sorted(rest);
        lemma_inserted(sorted_keys(rest), keys.last());
        assert forall|x: Key| #[trigger] sorted_keys(keys).contains(x) <==> keys.contains(x) by {
            if keys.contains(x) {
                let i = choose|i: int| 0 <= i < keys.len() && keys[i] == x;
                if i < rest.len() {
                    assert(rest[i] == x);
                }
            }
            if rest.contains(x) {
                let i = choose|i: int| 0 <= i < rest.len() && rest[i] == x;
                assert(keys[i] == x);
            }
            assert(keys[keys.len() - 1] == keys.last());
        }
    }
}

/// The keys as they are held.
pub open spec fn keys_view(keys: Seq<(u32, Vec<char>)>) -> Seq<Key> {
    keys.map_values(|k: (u32, Vec<char>)| (k.0, k.1@))
}

proof fn lemma_place(keys: Seq<Key>, k: Key, p: int)
    requires
        0 <= p <= keys.len(),
        forall|i: int| 0 <= i < p ==> (#[trigger] keys[i]) != k && !key_before(k, keys[i]),
        p < keys.len() ==> keys[p] == k || key_before(k, keys[p]),
    ensures
        inserted(keys, k) == if p < keys.len() && keys[p] == k {
            keys
        } else {
            keys.insert(p, k)
        },
    decreases p,
{
    if p == 0 {
        if keys.len() == 0 {
            assert(keys.insert(0, k) =~= seq![k]);
        } else {
            assert(keys.insert(0, k) =~= seq![k] + keys);
        }
    } else {
        let rest = keys.skip(1);
        assert(keys[0] != k && !key_before(k, keys[0]));
        assert forall|i: int| 0 <= i < p - 1 implies (#[trigger] rest[i]) != k && !key_before(
            k,
            rest[i],
        ) by {
            assert(rest[i] == keys[i + 1]);
        }
        lemma_place(rest, k, p - 1);
        assert(seq![keys[0]] + rest =~= keys);
        assert(seq![keys[0]] + rest.insert(p - 1, k) =~= keys.insert(p, k));
    }
}

/// Puts a key at its place.
pub fn insert_key(keys: &mut Vec<(u32, Vec<char>)>, number: u32, text: Vec<char>)
    ensures
        keys_view(final(keys)@) == inserted(keys_view(old(keys)@), (number, text@)),
{
    let ghost k = (number, text@);
    let ghost all = keys_view(keys@);
    let mut i: usize = 0;
    let mut found: bool = false;
    while i < keys.len()
        invariant_except_break
            !found,
        invariant
            i <= keys@.len(),
            all == keys_view(keys@),
            k == (number, text@),
            forall|j: int| 0 <= j < i ==> (#[trigger] all[j]) != k && !key_before(k, all[j]),
        ensures
            i < keys@.len() ==> (found <==> all[i as int] == k) && (found || key_before(
                k,
                all[i as int],
            )),
            found ==> i < keys@.len(),
        decreases keys@.len() - i,
    {
        assert(all[i as int] == (keys@[i as int].0, keys@[i as int].1@));
        if keys[i].0 == number && crate::text::same(keys[i].1.as_slice(), text.as_slice()) {
            found = true;
            break;
        }
        if number < keys[i].0 || (number == keys[i].0 && comes_before(
            text.as_slice(),
            keys[i].1.as_slice(),
        )) {
            break;
        }
        i += 1;
    }
    proof {
        lemma_place(all, k, i as int);
    }
    if !found {
        let ghost before = keys@;
        keys.insert(i, (number, text));
        assert(keys_view(keys@) =~= all.insert(i as int, k));
    }
}


// ---------------------------------------------------------------- arranging

/// What rows are arranged by: a number, then a text.
pub type Rank = (int, Seq<char>);

/// Whether a rank comes before another one.
pub open spec fn rank_before(a: Rank, b: Rank) -> bool {
    a.0 < b.0 || (a.0 == b.0 && text_before(a.1, b.1))
}

/// Whether row `a` is to stand behind row `b`, in rising or in falling order.
pub open spec fn stands_behind(ranks: Seq<Rank>, falling: bool, a: int, b: int) -> bool {
    if falling {
        rank_before(ranks[a], ranks[b])
    } else {
        rank_before(ranks[b], ranks[a])
    }
}

/// Rows with a further one at its place: in front of the first row that is to stand behind it.
pub open spec fn placed(ranks: Seq<Rank>, falling: bool, rows: Seq<int>, x: int) -> Seq<int>
    decreases rows.len(),
{
    if rows.len() == 0 {
        seq![x]
    } else if stands_behind(ranks, falling, rows[0], x) {
        seq![x] + rows
    } else {
        seq![rows[0]] + placed(ranks, falling, rows.skip(1), x)
    }
}

/// The first `n` rows in order.
pub open spec fn arranged(ranks: Seq<Rank>, falling: bool, n: int) -> Seq<int>
    decreases n,
{
    if n <= 0 {
        seq![]
    } else {
        placed(ranks, falling, arranged(ranks, falling, n - 1), n - 1)
    }
}

/// Whether the rows stand in order: none in front of one that it is to stand behind, and of equal
/// ones that with the smaller number first.
pub open spec fn in_order(ranks: Seq<Rank>, falling: bool, rows: Seq<int>) -> bool {
    forall|i: int, j: int|
        0 <= i < j < rows.len() ==> #[trigger] stands_behind(ranks, falling, rows[j], rows[i]) || (
        !stands_behind(ranks, falling, rows[i], rows[j]) && rows[i] < rows[j])
}

proof fn lemma_rank_order(a: Rank, b: Rank)
    ensures
        a != b ==> rank_before(a, b) != rank_before(b, a),
        !rank_before(a, a),
        !(rank_before(a, b) && rank_before(b, a)),
{
    law_texts_are_ordered(a.1, b.1);
    law_texts_are_ordered(b.1, a.1);
}

proof fn lemma_rank_chain(a: Rank, b: Rank, c: Rank)
    requires
        rank_before(a, b),
        rank_before(b, c),
    ensures
        rank_before(a, c),
{
    if a.0 == b.0 && b.0 == c.0 {
        law_order_carries_over(a.1, b.1, c.1);
    }
}

proof fn lemma_placed(ranks: Seq<Rank>, falling: bool, rows: Seq<int>, x: int)
    requires
        in_order(ranks, falling, rows),
        forall|i: int| 0 <= i < rows.len() ==> 0 <= #[trigger] rows[i] < x,
    ensures
        in_order(ranks, falling, placed(ranks, falling, rows, x)),
        placed(ranks, falling, rows, x).len() == rows.len() + 1,
        forall|y: int| #[trigger]
            placed(ranks, falling, rows, x).contains(y) <==> rows.contains(y) || y == x,
    decreases rows.len(),
{
    let r = placed(ranks, falling, rows, x);
    if rows.len() == 0 {
        assert(r[0] == x);
    } else if stands_behind(ranks, falling, rows[0], x) {
        assert forall|i: int, j: int| 0 <= i < j < r.len() implies #[trigger] stands_behind(
            ranks,
            falling,
            r[j],
            r[i],
        ) || (!stands_behind(ranks, falling, r[i], r[j]) && r[i] < r[j]) by {
            if i == 0 {
                if j > 1 {
                    let p = rows[0];
                    let q = rows[j - 1];
                    assert(stands_behind(ranks, falling, q, p) || !stands_behind(
                        ranks,
                        falling,
                        p,
                        q,
                    ));
                    lemma_rank_order(ranks[p], ranks[q]);
                    if ranks[p] != ranks[q] {
                        if falling {
                            lemma_rank_chain(ranks[q], ranks[p], ranks[x]);
                        } else {
                            lemma_rank_chain(ranks[x], ranks[p], ranks[q]);
                        }
                    }
                }
            } else {
                let _ = stands_behind(ranks, falling, rows[j - 1], rows[i - 1]);
            }
        }
        assert forall|y: int| #[trigger] r.contains(y) <==> rows.contains(y) || y == x by {
            if rows.contains(y) {
                let i = choose|i: int| 0 <= i < rows.len() && rows[i] == y;
                assert(r[i + 1] == y);
            }
            assert(r[0] == x);
            if r.contains(y) && y != x {
                let i = choose|i: int| 0 <= i < r.len() && r[i] == y;
                assert(rows[i - 1] == y);
            }
        }
    } else {
        let rest = rows.skip(1);
        assert forall|i: int, j: int| 0 <= i < j < rest.len() implies #[trigger] stands_behind(
            ranks,
            falling,
            rest[j],
            rest[i],
        ) || (!stands_behind(ranks, falling, rest[i], rest[j]) && rest[i] < rest[j]) by {
            let _ = stands_behind(ranks, falling, rows[j + 1], rows[i + 1]);
        }
        lemma_placed(ranks, falling, rest, x);
        let tail = placed(ranks, falling, rest, x);
        assert forall|i: int, j: int| 0 <= i < j < r.len() implies #[trigger] stands_behind(
            ranks,
            falling,
            r[j],
            r[i],
        ) || (!stands_behind(ranks, falling, r[i], r[j]) && r[i] < r[j]) by {
            if i == 0 {
                let y = tail[j - 1];
                assert(tail.contains(y));
                if y != x {
                    assert(rest.contains(y));
                    let m = choose|m: int| 0 <= m < rest.len() && rest[m] == y;
                    let _ = stands_behind(ranks, falling, rows[m + 1], rows[0]);
                }
            } else {
                let _ = stands_behind(ranks, falling, tail[j - 1], tail[i - 1]);
            }
        }
        assert forall|y: int| #[trigger] r.contains(y) <==> rows.contains(y) || y == x by {
            if rows.contains(y) {
                let i = choose|i: int| 0 <= i < rows.len() && rows[i] == y;
                if i == 0 {
                    assert(r[0] == y);
                } else {
                    assert(rest[i - 1] == y);
                    assert(tail.contains(y));
                }
            }
            if tail.contains(y) {
                let i = choose|i: int| 0 <= i < tail.len() && tail[i] == y;
                assert(r[i + 1] == y);
            }
            if r.contains(y) {
                let i = choose|i: int| 0 <= i < r.len() && r[i] == y;
                if i == 0 {
                    assert(rows[0] == y);
                } else {
                    assert(tail[i - 1] == y);
                    if rest.contains(y) {
                        let m = choose|m: int| 0 <= m < rest.len() && rest[m] == y;
                        assert(rows[m + 1] == y);
                    }
                }
            }
            assert(tail.contains(x));
        }
    }
}

/// Arranged rows stand in order, equal ones as they were, and each row stands there once.
pub proof fn law_rows_are_arranged(ranks: Seq<Rank>, falling: bool, n: int)
    requires
        0 <= n <= ranks.len(),
    ensures
        in_order(ranks, falling, arranged(ranks, falling, n)),
        arranged(ranks, falling, n).len() == n,
        forall|y: int| #[trigger] arranged(ranks, falling, n).contains(y) <==> 0 <= y < n,
    decreases n,
{
    if n > 0 {
        law_rows_are_arranged(ranks, falling, n - 1);
        let before = arranged(ranks, falling, n - 1);
        assert forall|i: int| 0 <= i < before.len() implies 0 <= #[trigger] before[i] < n - 1 by {
            assert(before.contains(before[i]));
        }
        lemma_placed(ranks, falling, before, n - 1);
    }
}

/// The ranks as they are held.
pub open spec fn ranks_view(ranks: Seq<(i128, Vec<char>)>) -> Seq<Rank> {
    ranks.map_values(|k: (i128, Vec<char>)| (k.0 as int, k.1@))
}

/// Numbers of rows as they are held.
pub open spec fn numbers_view(rows: Seq<usize>) -> Seq<int> {
    rows.map_values(|x: usize| x as int)
}

fn before(a: &(i128, Vec<char>), b: &(i128, Vec<char>)) -> (r: bool)
    ensures
        r == rank_before((a.0 as int, a.1@), (b.0 as int, b.1@)),
{
    a.0 < b.0 || (a.0 == b.0 && comes_before(a.1.as_slice(), b.1.as_slice()))
}

/// Whether row `a` goes in front of row `b`.
spec fn goes_first(ranks: Seq<Rank>, falling: bool, a: int, b: int) -> bool {
    stands_behind(ranks, falling, b, a) || (!stands_behind(ranks, falling, a, b) && a < b)
}

proof fn lemma_goes_first(ranks: Seq<Rank>, falling: bool, a: int, b: int)
    ensures
        a != b ==> goes_first(ranks, falling, a, b) != goes_first(ranks, falling, b, a),
        !goes_first(ranks, falling, a, a),
{
    lemma_rank_order(ranks[a], ranks[b]);
    lemma_rank_order(ranks[b], ranks[a]);
}

proof fn lemma_first_chain(ranks: Seq<Rank>, falling: bool, a: int, b: int, c: int)
    requires
        goes_first(ranks, falling, a, b),
        goes_first(ranks, falling, b, c),
    ensures
        goes_first(ranks, falling, a, c),
{
    lemma_rank_order(ranks[a], ranks[b]);
    lemma_rank_order(ranks[b], ranks[c]);
    lemma_rank_order(ranks[a], ranks[c]);
    if stands_behind(ranks, falling, b, a) && stands_behind(ranks, falling, c, b) {
        if falling {
            lemma_rank_chain(ranks[c], ranks[b], ranks[a]);
        } else {
            lemma_rank_chain(ranks[a], ranks[b], ranks[c]);
        }
    }
}

proof fn lemma_one_order(ranks: Seq<Rank>, falling: bool, s: Seq<int>, t: Seq<int>)
    requires
        in_order(ranks, falling, s),
        in_order(ranks, falling, t),
        forall|y: int| #[trigger] s.contains(y) <==> t.contains(y),
    ensures
        s == t,
    decreases s.len(),
{
    if s.len() == 0 {
        if t.len() > 0 {
            assert(t.contains(t[0]));
            assert(s.contains(t[0]));
        }
        assert(s =~= t);
    } else {
        let x = s[0];
        assert(s.contains(x));
        assert(t.contains(x));
        let k = choose|k: int| 0 <= k < t.len() && t[k] == x;
        if k > 0 {
            let y = t[0];
            assert(t.contains(y));
            assert(s.contains(y));
            let m = choose|m: int| 0 <= m < s.len() && s[m] == y;
            assert(stands_behind(ranks, falling, t[k], t[0]) || (!stands_behind(
                ranks,
                falling,
                t[0],
                t[k],
            ) && t[0] < t[k]));
            lemma_goes_first(ranks, falling, x, y);
            if m > 0 {
                assert(stands_behind(ranks, falling, s[m], s[0]) || (!stands_behind(
                    ranks,
                    falling,
                    s[0],
                    s[m],
                ) && s[0] < s[m]));
            }
        }
        let s1 = s.skip(1);
        let t1 = t.skip(1);
        assert forall|i: int, j: int| 0 <= i < j < s1.len() implies #[trigger] stands_behind(
            ranks,
            falling,
            s1[j],
            s1[i],
        ) || (!stands_behind(ranks, falling, s1[i], s1[j]) && s1[i] < s1[j]) by {
            let _ = stands_behind(ranks, falling, s[j + 1], s[i + 1]);
        }
        assert forall|i: int, j: int| 0 <= i < j < t1.len() implies #[trigger] stands_behind(
            ranks,
            falling,
            t1[j],
            t1[i],
        ) || (!stands_behind(ranks, falling, t1[i], t1[j]) && t1[i] < t1[j]) by {
            let _ = stands_behind(ranks, falling, t[j + 1], t[i + 1]);
        }
        assert forall|y: int| #[trigger] s1.contains(y) <==> t1.contains(y) by {
            lemma_tail(ranks, falling, s, y);
            lemma_tail(ranks, falling, t, y);
            assert(s.contains(y) <==> t.contains(y));
        }
        lemma_one_order(ranks, falling, s1, t1);
        assert(s =~= seq![x] + s1);
        assert(t =~= seq![x] + t1);
    }
}

proof fn lemma_tail(ranks: Seq<Rank>, falling: bool, s: Seq<int>, y: int)
    requires
        s.len() > 0,
        in_order(ranks, falling, s),
    ensures
        s.skip(1).contains(y) <==> s.contains(y) && y != s[0],
{
    if s.skip(1).contains(y) {
        let i = choose|i: int| 0 <= i < s.len() - 1 && s.skip(1)[i] == y;
        assert(s[i + 1] == y);
        assert(stands_behind(ranks, falling, s[i + 1], s[0]) || (!stands_behind(
            ranks,
            falling,
            s[0],
            s[i + 1],
        ) && s[0] < s[i + 1]));
        lemma_goes_first(ranks, falling, s[0], s[0]);
    }
    if s.contains(y) && y != s[0] {
        let i = choose|i: int| 0 <= i < s.len() && s[i] == y;
        assert(s.skip(1)[i - 1] == y);
    }
}

/// Whether rows are those from one number to another, in order.
spec fn sorted_range(ranks: Seq<Rank>, falling: bool, rows: Seq<int>, lo: int, hi: int) -> bool {
    &&& in_order(ranks, falling, rows)
    &&& rows.len() == hi - lo
    &&& forall|y: int| #[trigger] rows.contains(y) <==> lo <= y < hi
}

fn in_front(ranks: &[(i128, Vec<char>)], falling: bool, a: usize, b: usize) -> (r: bool)
    requires
        a < b < ranks@.len(),
    ensures
        r == goes_first(ranks_view(ranks@), falling, a as int, b as int),
{
    let ghost all = ranks_view(ranks@);
    proof {
        lemma_rank_order(all[a as int], all[b as int]);
    }
    if falling {
        !before(&ranks[a], &ranks[b])
    } else {
        !before(&ranks[b], &ranks[a])
    }
}

fn merge(
    ranks: &[(i128, Vec<char>)],
    falling: bool,
    left: &[usize],
    right: &[usize],
    Ghost(lo): Ghost<int>,
    Ghost(mid): Ghost<int>,
    Ghost(hi): Ghost<int>,
) -> (r: Vec<usize>)
    requires
        0 <= lo <= mid <= hi <= ranks@.len(),
        sorted_range(ranks_view(ranks@), falling, numbers_view(left@), lo, mid),
        sorted_range(ranks_view(ranks@), falling, numbers_view(right@), mid, hi),
    ensures
        sorted_range(ranks_view(ranks@), falling, numbers_view(r@), lo, hi),
{
    let ghost all = ranks_view(ranks@);
    let ghost a = numbers_view(left@);
    let ghost b = numbers_view(right@);
    let mut out: Vec<usize> = Vec::new();
    let mut i: usize = 0;
    let mut j: usize = 0;
    assert forall|k: int| 0 <= k < left@.len() implies lo <= (#[trigger] left@[k]) < mid by {
        assert(a[k] == left@[k]);
        assert(a.contains(a[k]));
    }
    assert forall|k: int| 0 <= k < right@.len() implies mid <= (#[trigger] right@[k]) < hi by {
        assert(b[k] == right@[k]);
        assert(b.contains(b[k]));
    }
    while i < left.len() || j < right.len()
        invariant
            0 <= lo <= mid <= hi <= ranks@.len(),
            all == ranks_view(ranks@),
            a == numbers_view(left@),
            b == numbers_view(right@),
            in_order(all, falling, a),
            in_order(all, falling, b),
            forall|k: int| 0 <= k < left@.len() ==> lo <= (#[trigger] left@[k]) < mid,
            forall|k: int| 0 <= k < right@.len() ==> mid <= (#[trigger] right@[k]) < hi,
            i <= left@.len(),
            j <= right@.len(),
            out@.len() == i + j,
            in_order(all, falling, numbers_view(out@)),
            forall|k: int, m: int|
                0 <= k < out@.len() && i <= m < left@.len() ==> #[trigger] goes_first(
                    all,
                    falling,
                    numbers_view(out@)[k],
                    a[m],
                ),
            forall|k: int, m: int|
                0 <= k < out@.len() && j <= m < right@.len() ==> #[trigger] goes_first(
                    all,
                    falling,
                    numbers_view(out@)[k],
                    b[m],
                ),
            forall|y: int| #[trigger]
                numbers_view(out@).contains(y) <==> a.take(i as int).contains(y) || b.take(
                    j as int,
                ).contains(y),
        decreases left@.len() - i + right@.len() - j,
    {
        let ghost before_out = numbers_view(out@);
        let from_left: bool = if i >= left.len() {
            false
        } else if j >= right.len() {
            true
        } else {
            assert(lo <= left@[i as int] < mid);
            assert(mid <= right@[j as int] < hi);
            in_front(ranks, falling, left[i], right[j])
        };
        let ghost x: int = if from_left {
            a[i as int]
        } else {
            b[j as int]
        };
        proof {
            assert(a[i as int] == left@[i as int] || i >= left@.len());
            assert(b[j as int] == right@[j as int] || j >= right@.len());
            // What is left over goes behind what is taken.
            assert forall|m: int| i <= m < left@.len() && !(from_left && m == i) implies
                #[trigger] goes_first(all, falling, x, a[m]) by {
                if from_left {
                    assert(stands_behind(all, falling, a[m], a[i as int]) || (!stands_behind(
                        all,
                        falling,
                        a[i as int],
                        a[m],
                    ) && a[i as int] < a[m]));
                } else {
                    assert(i < left@.len());
                    lemma_goes_first(all, falling, a[i as int], b[j as int]);
                    assert(lo <= left@[i as int] < mid);
                    assert(mid <= right@[j as int] < hi);
                    assert(goes_first(all, falling, b[j as int], a[i as int]));
                    if m > i {
                        assert(stands_behind(all, falling, a[m], a[i as int]) || (!stands_behind(
                            all,
                            falling,
                            a[i as int],
                            a[m],
                        ) && a[i as int] < a[m]));
                        lemma_first_chain(all, falling, x, a[i as int], a[m]);
                    }
                }
            }
            assert forall|m: int| j <= m < right@.len() && !(!from_left && m == j) implies
                #[trigger] goes_first(all, falling, x, b[m]) by {
                if !from_left {
                    assert(stands_behind(all, falling, b[m], b[j as int]) || (!stands_behind(
                        all,
                        falling,
                        b[j as int],
                        b[m],
                    ) && b[j as int] < b[m]));
                } else {
                    assert(goes_first(all, falling, a[i as int], b[j as int]));
                    if m > j {
                        assert(stands_behind(all, falling, b[m], b[j as int]) || (!stands_behind(
                            all,
                            falling,
                            b[j as int],
                            b[m],
                        ) && b[j as int] < b[m]));
                        lemma_first_chain(all, falling, x, b[j as int], b[m]);
                    }
                }
            }
            assert forall|k: int| 0 <= k < before_out.len() implies #[trigger] goes_first(
                all,
                falling,
                before_out[k],
                x,
            ) by {
                if from_left {
                    assert(goes_first(all, falling, before_out[k], a[i as int]));
                } else {
                    assert(goes_first(all, falling, before_out[k], b[j as int]));
                }
            }
        }
        if from_left {
            out.push(left[i]);
            assert(a.take(i + 1) =~= a.take(i as int).push(x));
            i += 1;
        } else {
            out.push(right[j]);
            assert(b.take(j + 1) =~= b.take(j as int).push(x));
            j += 1;
        }
        proof {
            let now = numbers_view(out@);
            assert(now =~= before_out.push(x));
            assert forall|p: int, q: int| 0 <= p < q < now.len() implies #[trigger] stands_behind(
                all,
                falling,
                now[q],
                now[p],
            ) || (!stands_behind(all, falling, now[p], now[q]) && now[p] < now[q]) by {
                if q < before_out.len() {
                    let _ = stands_behind(all, falling, before_out[q], before_out[p]);
                } else {
                    assert(goes_first(all, falling, before_out[p], x));
                }
            }
            assert forall|k: int, m: int| 0 <= k < now.len() && i <= m < left@.len() implies
                #[trigger] goes_first(all, falling, now[k], a[m]) by {
                if k < before_out.len() {
                    assert(goes_first(all, falling, before_out[k], a[m]));
                }
            }
            assert forall|k: int, m: int| 0 <= k < now.len() && j <= m < right@.len() implies
                #[trigger] goes_first(all, falling, now[k], b[m]) by {
                if k < before_out.len() {
                    assert(goes_first(all, falling, before_out[k], b[m]));
                }
            }
            assert forall|y: int| #[trigger] now.contains(y) <==> a.take(i as int).contains(y)
                || b.take(j as int).contains(y) by {
                lemma_pushed(before_out, x, y);
                if from_left {
                    lemma_pushed(a.take(i - 1), x, y);
                } else {
                    lemma_pushed(b.take(j - 1), x, y);
                }
                assert(before_out.contains(y) <==> before_out.contains(y));
            }
        }
    }
    assert(a.take(i as int) =~= a);
    assert(b.take(j as int) =~= b);
    out
}

fn sort_range(ranks: &[(i128, Vec<char>)], falling: bool, lo: usize, hi: usize) -> (r: Vec<usize>)
    requires
        lo <= hi <= ranks@.len(),
    ensures
        sorted_range(ranks_view(ranks@), falling, numbers_view(r@), lo as int, hi as int),
    decreases hi - lo,
{
    if hi - lo <= 1 {
        let mut out: Vec<usize> = Vec::new();
        if lo < hi {
            out.push(lo);
            assert(numbers_view(out@)[0] == lo);
        }
        return out;
    }
    let mid: usize = lo + (hi - lo) / 2;
    let left = sort_range(ranks, falling, lo, mid);
    let right = sort_range(ranks, falling, mid, hi);
    merge(
        ranks,
        falling,
        left.as_slice(),
        right.as_slice(),
        Ghost(lo as int),
        Ghost(mid as int),
        Ghost(hi as int),
    )
}

/// The numbers of the rows in order.
pub fn arrange(ranks: &[(i128, Vec<char>)], falling: bool) -> (r: Vec<usize>)
    ensures
        numbers_view(r@) == arranged(ranks_view(ranks@), falling, ranks@.len() as int),
        r@.len() == ranks@.len(),
        forall|i: int| 0 <= i < r@.len() ==> (#[trigger] r@[i]) < ranks@.len(),
{
    let n: usize = ranks.len();
    let out = sort_range(ranks, falling, 0, n);
    proof {
        let all = ranks_view(ranks@);
        let rows = numbers_view(out@);
        law_rows_are_arranged(all, falling, n as int);
        let target = arranged(all, falling, n as int);
        assert forall|y: int| #[trigger] rows.contains(y) <==> target.contains(y) by {}
        lemma_one_order(all, falling, rows, target);
        assert forall|i: int| 0 <= i < out@.len() implies (#[trigger] out@[i]) < n by {
            assert(rows[i] == out@[i]);
            assert(rows.contains(rows[i]));
        }
    }
    out
}

} // verus!
