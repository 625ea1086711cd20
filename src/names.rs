use vstd::prelude::*;

verus! {

/// Lexicographic order of names, character by character (by code point); a
/// proper prefix comes first.
pub open spec fn name_lt(a: Seq<char>, b: Seq<char>) -> bool
    decreases a.len(),
{
    if a.len() == 0 {
        b.len() > 0
    } else if b.len() == 0 {
        false
    } else if a[0] != b[0] {
        (a[0] as int) < (b[0] as int)
    } else {
        name_lt(a.drop_first(), b.drop_first())
    }
}

/// Each name comes strictly before the next one: sorted, without repeats.
pub open spec fn strictly_sorted(names: Seq<Seq<char>>) -> bool {
    forall|i: int, j: int| 0 <= i < j < names.len() ==> name_lt(#[trigger] names[i], #[trigger] names[j])
}

/// `needle` occurs in `hay` as a contiguous run.
pub open spec fn contains_seq(hay: Seq<char>, needle: Seq<char>) -> bool {
    exists|k: int| 0 <= k && k + needle.len() <= hay.len() && #[trigger] hay.subrange(k, k + needle.len()) == needle
}

/// The name passes the filter: there is none, or the name contains it.
pub open spec fn passes_filter(name: Seq<char>, filter: Option<Seq<char>>) -> bool {
    match filter {
        Some(f) => contains_seq(name, f),
        None => true,
    }
}

/// `out` is the pairing of the names found on the left and on the right: each
/// name found on either side that passes the filter, once, in lexicographic order.
pub open spec fn is_pairing(
    left: Seq<Seq<char>>,
    right: Seq<Seq<char>>,
    filter: Option<Seq<char>>,
    out: Seq<Seq<char>>,
) -> bool {
    &&& strictly_sorted(out)
    &&& forall|n: Seq<char>| #[trigger] out.contains(n) <==> (left.contains(n) || right.contains(n)) && passes_filter(n, filter)
}

pub open spec fn filter_view(filter: Option<&str>) -> Option<Seq<char>> {
    match filter {
        Some(f) => Some(f@),
        None => None,
    }
}

proof fn lemma_name_lt_irreflexive(a: Seq<char>)
    ensures
        !name_lt(a, a),
    decreases a.len(),
{
    if a.len() > 0 {
        lemma_name_lt_irreflexive(a.drop_first());
    }
}

proof fn lemma_name_lt_total(a: Seq<char>, b: Seq<char>)
    ensures
        a == b || name_lt(a, b) || name_lt(b, a),
        !(name_lt(a, b) && name_lt(b, a)),
    decreases a.len(),
{
    if a.len() > 0 && b.len() > 0 {
        if a[0] == b[0] {
            lemma_name_lt_total(a.drop_first(), b.drop_first());
            if a.drop_first() == b.drop_first() {
                assert(a =~= seq![a[0]] + a.drop_first());
                assert(b =~= seq![b[0]] + b.drop_first());
            }
        } else {
            assert((a[0] as int) != (b[0] as int));
        }
    } else if a.len() == 0 && b.len() == 0 {
        assert(a =~= b);
    }
}

proof fn lemma_name_lt_transitive(a: Seq<char>, b: Seq<char>, c: Seq<char>)
    requires
        name_lt(a, b),
        name_lt(b, c),
    ensures
        name_lt(a, c),
    decreases a.len(),
{
    if a.len() > 0 && b.len() > 0 && c.len() > 0 && a[0] == b[0] && b[0] == c[0] {
        lemma_name_lt_transitive(a.drop_first(), b.drop_first(), c.drop_first());
    }
}

proof fn lemma_name_lt_skip(a: Seq<char>, b: Seq<char>, i: int)
    requires
        0 <= i <= a.len(),
        i <= b.len(),
        a.subrange(0, i) == b.subrange(0, i),
    ensures
        name_lt(a, b) == name_lt(a.subrange(i, a.len() as int), b.subrange(i, b.len() as int)),
    decreases i,
{
    if i > 0 {
        assert(a[0] == a.subrange(0, i)[0]);
        assert(b[0] == b.subrange(0, i)[0]);
        assert(a.drop_first().subrange(0, i - 1) =~= a.subrange(0, i).drop_first());
        assert(b.drop_first().subrange(0, i - 1) =~= b.subrange(0, i).drop_first());
        lemma_name_lt_skip(a.drop_first(), b.drop_first(), i - 1);
        assert(a.drop_first().subrange(i - 1, a.len() - 1) =~= a.subrange(i, a.len() as int));
        assert(b.drop_first().subrange(i - 1, b.len() - 1) =~= b.subrange(i, b.len() as int));
    } else {
        assert(a.subrange(0, a.len() as int) =~= a);
        assert(b.subrange(0, b.len() as int) =~= b);
    }
}

/// The characters of `s`, in order.
pub(crate) fn chars_of(s: &str) -> (r: Vec<char>)
    ensures
        r@ == s@,
{
    let mut out: Vec<char> = Vec::new();
    for c in it: s.chars()
        invariant
            it.seq() == s@,
            out@ == s@.subrange(0, it.index() as int),
    {
        out.push(c);
        assert(out@ =~= s@.subrange(0, it.index() + 1));
    }
    assert(out@ =~= s@);
    out
}

/// Compares two names: negative, zero or positive as `a` comes before, equals
/// or comes after `b`.
fn compare_names(a: &Vec<char>, b: &Vec<char>) -> (r: i8)
    ensures
        r < 0 <==> name_lt(a@, b@),
        r == 0 <==> a@ == b@,
        r > 0 <==> name_lt(b@, a@),
{
    let mut i: usize = 0;
    while i < a.len() && i < b.len() && a[i] == b[i]
        invariant
            0 <= i <= a@.len(),
            i <= b@.len(),
            a@.subrange(0, i as int) == b@.subrange(0, i as int),
        decreases a@.len() - i,
    {
        assert(a@.subrange(0, i + 1) =~= a@.subrange(0, i as int).push(a@[i as int]));
        assert(b@.subrange(0, i + 1) =~= b@.subrange(0, i as int).push(b@[i as int]));
        i = i + 1;
    }
    proof {
        lemma_name_lt_skip(a@, b@, i as int);
        lemma_name_lt_skip(b@, a@, i as int);
        lemma_name_lt_total(a@, b@);
        lemma_name_lt_irreflexive(a@);
    }
    let ghost ra = a@.subrange(i as int, a@.len() as int);
    let ghost rb = b@.subrange(i as int, b@.len() as int);
    if i == a.len() && i == b.len() {
        assert(a@ =~= a@.subrange(0, i as int));
        assert(b@ =~= b@.subrange(0, i as int));
        0
    } else if i == a.len() {
        assert(ra.len() == 0 && rb.len() > 0);
        -1
    } else if i == b.len() {
        assert(rb.len() == 0 && ra.len() > 0);
        1
    } else {
        assert(ra[0] == a@[i as int] && rb[0] == b@[i as int]);
        if a[i] < b[i] {
            -1
        } else {
            1
        }
    }
}

/// Tells whether `needle` occurs in `hay`.
pub(crate) fn contains_chars(hay: &Vec<char>, needle: &Vec<char>) -> (r: bool)
    ensures
        r == contains_seq(hay@, needle@),
{
    if needle.len() == 0 {
        assert(hay@.subrange(0int, 0int + needle@.len()) =~= needle@);
        return true;
    }
    let hay_len = hay.len();
    let needle_len = needle.len();
    let mut k: usize = 0;
    while k < hay_len && needle_len <= hay_len - k
        invariant
            hay_len == hay@.len(),
            needle_len == needle@.len(),
            needle_len > 0,
            0 <= k <= hay_len,
            forall|j: int| 0 <= j < k ==> #[trigger] hay@.subrange(j, j + needle@.len()) != needle@,
        decreases hay_len - k,
    {
        let mut i: usize = 0;
        while i < needle_len && hay[k + i] == needle[i]
            invariant
                hay_len == hay@.len(),
                needle_len == needle@.len(),
                k + needle_len <= hay_len,
                0 <= i <= needle_len,
                hay@.subrange(k as int, k + i) == needle@.subrange(0, i as int),
            decreases needle_len - i,
        {
            assert(hay@.subrange(k as int, k + i + 1) =~= hay@.subrange(k as int, k + i).push(hay@[k + i]));
            assert(needle@.subrange(0, i + 1) =~= needle@.subrange(0, i as int).push(needle@[i as int]));
            i = i + 1;
        }
        if i == needle_len {
            assert(needle@.subrange(0, i as int) =~= needle@);
            return true;
        }
        assert(hay@.subrange(k as int, k + needle@.len())[i as int] != needle@[i as int]);
        k = k + 1;
    }
    false
}

/// Inserts `name` into the strictly sorted `out` (with its characters in
/// `keys`), unless it is there already.
fn insert_sorted(out: &mut Vec<String>, keys: &mut Vec<Vec<char>>, name: &String, key: Vec<char>)
    requires
        old(out)@.len() == old(keys)@.len(),
        forall|i: int| 0 <= i < old(out)@.len() ==> #[trigger] old(keys)@[i]@ == old(out)@[i]@,
        strictly_sorted(old(out).deep_view()),
        key@ == name@,
    ensures
        final(out)@.len() == final(keys)@.len(),
        forall|i: int| 0 <= i < final(out)@.len() ==> #[trigger] final(keys)@[i]@ == final(out)@[i]@,
        strictly_sorted(final(out).deep_view()),
        forall|n: Seq<char>| #[trigger] final(out).deep_view().contains(n) <==> (old(out).deep_view().contains(n) || n == name@),
{
    let ghost before = out.deep_view();
    let mut i: usize = 0;
    while i < keys.len() && compare_names(&keys[i], &key) < 0
        invariant
            out@.len() == keys@.len(),
            out.deep_view() == before,
            forall|j: int| 0 <= j < out@.len() ==> #[trigger] keys@[j]@ == out@[j]@,
            0 <= i <= keys@.len(),
            forall|j: int| 0 <= j < i ==> name_lt(#[trigger] before[j], key@),
        decreases keys@.len() - i,
    {
        i = i + 1;
    }
    if i < keys.len() && compare_names(&keys[i], &key) == 0 {
        assert(before[i as int] == name@);
        assert forall|n: Seq<char>| #[trigger] out.deep_view().contains(n) <==> (before.contains(n) || n == name@) by {
            if n == name@ {
                assert(out.deep_view()[i as int] == n);
            }
        }
        return;
    }
    proof {
        if i < keys.len() {
            lemma_name_lt_total(before[i as int], key@);
        }
        assert forall|j: int| i <= j < before.len() implies name_lt(key@, #[trigger] before[j]) by {
            if j > i {
                lemma_name_lt_transitive(key@, before[i as int], before[j]);
            }
        }
    }
    out.insert(i, name.clone());
    keys.insert(i, key);
    let ghost after = out.deep_view();
    assert(after =~= before.insert(i as int, name@));
    assert forall|a: int, b: int| 0 <= a < b < after.len() implies name_lt(#[trigger] after[a], #[trigger] after[b]) by {
        if b == i {
        } else if a == i {
        } else if a > i {
            assert(after[a] == before[a - 1] && after[b] == before[b - 1]);
        } else if b > i {
            assert(after[a] == before[a] && after[b] == before[b - 1]);
            assert(name_lt(before[a], key@));
            lemma_name_lt_transitive(before[a], key@, before[b - 1]);
        } else {
            assert(after[a] == before[a] && after[b] == before[b]);
        }
    }
    assert forall|n: Seq<char>| #[trigger] after.contains(n) <==> (before.contains(n) || n == name@) by {
        if after.contains(n) {
            let k = choose|k: int| 0 <= k < after.len() && after[k] == n;
            if k < i {
                assert(before[k] == n);
            } else if k > i {
                assert(before[k - 1] == n);
            }
        }
        if before.contains(n) {
            let k = choose|k: int| 0 <= k < before.len() && before[k] == n;
            if k < i {
                assert(after[k] == n);
            } else {
                assert(after[k + 1] == n);
            }
        }
        if n == name@ {
            assert(after[i as int] == n);
        }
    }
}

proof fn lemma_push_contains(s: Seq<Seq<char>>, x: Seq<char>, n: Seq<char>)
    ensures
        s.push(x).contains(n) <==> (s.contains(n) || n == x),
{
    if s.push(x).contains(n) {
        let k = choose|k: int| 0 <= k < s.push(x).len() && s.push(x)[k] == n;
        if k < s.len() {
            assert(s[k] == n);
        }
    }
    if s.contains(n) {
        let k = choose|k: int| 0 <= k < s.len() && s[k] == n;
        assert(s.push(x)[k] == n);
    }
    if n == x {
        assert(s.push(x)[s.len() as int] == n);
    }
}

/// Inserts each name of `names` that passes the filter into `out`.
fn add_names(
    out: &mut Vec<String>,
    keys: &mut Vec<Vec<char>>,
    names: &Vec<String>,
    filter: &Option<Vec<char>>,
)
    requires
        old(out)@.len() == old(keys)@.len(),
        forall|i: int| 0 <= i < old(out)@.len() ==> #[trigger] old(keys)@[i]@ == old(out)@[i]@,
        strictly_sorted(old(out).deep_view()),
    ensures
        final(out)@.len() == final(keys)@.len(),
        forall|i: int| 0 <= i < final(out)@.len() ==> #[trigger] final(keys)@[i]@ == final(out)@[i]@,
        strictly_sorted(final(out).deep_view()),
        forall|n: Seq<char>| #[trigger] final(out).deep_view().contains(n) <==> (old(out).deep_view().contains(n)
            || (names.deep_view().contains(n) && passes_filter(n, key_filter(*filter)))),
{
    let ghost start = out.deep_view();
    let mut i: usize = 0;
    while i < names.len()
        invariant
            0 <= i <= names@.len(),
            out@.len() == keys@.len(),
            forall|j: int| 0 <= j < out@.len() ==> #[trigger] keys@[j]@ == out@[j]@,
            strictly_sorted(out.deep_view()),
            forall|n: Seq<char>| #[trigger] out.deep_view().contains(n) <==> (start.contains(n) || (
                names.deep_view().subrange(0, i as int).contains(n) && passes_filter(n, key_filter(*filter)))),
        decreases names@.len() - i,
    {
        let name = &names[i];
        let key = chars_of(name.as_str());
        let keep = match filter {
            Some(f) => contains_chars(&key, f),
            None => true,
        };
        assert(names.deep_view()[i as int] == name@);
        assert(keep == passes_filter(name@, key_filter(*filter)));
        let ghost prev = out.deep_view();
        if keep {
            insert_sorted(out, keys, name, key);
        }
        assert forall|n: Seq<char>| #[trigger] out.deep_view().contains(n) <==> (start.contains(n) || (
            names.deep_view().subrange(0, i + 1).contains(n) && passes_filter(n, key_filter(*filter)))) by {
            assert(names.deep_view().subrange(0, i + 1) =~= names.deep_view().subrange(0, i as int).push(name@));
            lemma_push_contains(names.deep_view().subrange(0, i as int), name@, n);
            assert(prev.contains(n) <==> (start.contains(n) || (
                names.deep_view().subrange(0, i as int).contains(n) && passes_filter(n, key_filter(*filter)))));
        }
        i = i + 1;
    }
    assert(names.deep_view().subrange(0, names@.len() as int) =~= names.deep_view());
}

pub open spec fn key_filter(filter: Option<Vec<char>>) -> Option<Seq<char>> {
    match filter {
        Some(f) => Some(f@),
        None => None,
    }
}

/// The names to compare, from the names found under the left and under the
/// right directory: each name of either side that contains `filter_name` (when
/// given), once, in lexicographic order.
pub fn pair_names(left: &Vec<String>, right: &Vec<String>, filter_name: Option<&str>) -> (r: Vec<String>)
    ensures
        is_pairing(left.deep_view(), right.deep_view(), filter_view(filter_name), r.deep_view()),
{
    let filter: Option<Vec<char>> = match filter_name {
        Some(f) => Some(chars_of(f)),
        None => None,
    };
    assert(key_filter(filter) == filter_view(filter_name));
    let mut out: Vec<String> = Vec::new();
    let mut keys: Vec<Vec<char>> = Vec::new();
    assert(out.deep_view() =~= Seq::<Seq<char>>::empty());
    add_names(&mut out, &mut keys, left, &filter);
    add_names(&mut out, &mut keys, right, &filter);
    out
}

/// The names that exist among `snapshots` and not among `current`, each once,
/// in lexicographic order.
pub fn dead_snapshot_names(snapshots: &Vec<String>, current: &Vec<String>) -> (r: Vec<String>)
    ensures
        strictly_sorted(r.deep_view()),
        forall|n: Seq<char>| #[trigger] r.deep_view().contains(n) <==> (snapshots.deep_view().contains(n)
            && !current.deep_view().contains(n)),
{
    let mut current_keys: Vec<Vec<char>> = Vec::new();
    let mut c: usize = 0;
    while c < current.len()
        invariant
            0 <= c <= current@.len(),
            current_keys@.len() == c,
            forall|j: int| 0 <= j < c ==> #[trigger] current_keys@[j]@ == current@[j]@,
        decreases current@.len() - c,
    {
        current_keys.push(chars_of(current[c].as_str()));
        c = c + 1;
    }
    let mut out: Vec<String> = Vec::new();
    let mut keys: Vec<Vec<char>> = Vec::new();
    assert(out.deep_view() =~= Seq::<Seq<char>>::empty());
    let mut i: usize = 0;
    while i < snapshots.len()
        invariant
            0 <= i <= snapshots@.len(),
            current_keys@.len() == current@.len(),
            forall|j: int| 0 <= j < current@.len() ==> #[trigger] current_keys@[j]@ == current@[j]@,
            out@.len() == keys@.len(),
            forall|j: int| 0 <= j < out@.len() ==> #[trigger] keys@[j]@ == out@[j]@,
            strictly_sorted(out.deep_view()),
            forall|n: Seq<char>| #[trigger] out.deep_view().contains(n) <==> (snapshots.deep_view().subrange(0, i as int).contains(n)
                && !current.deep_view().contains(n)),
        decreases snapshots@.len() - i,
    {
        let name = &snapshots[i];
        let key = chars_of(name.as_str());
        let mut found = false;
        let mut j: usize = 0;
        while j < current_keys.len() && !found
            invariant
                0 <= j <= current_keys@.len(),
                current_keys@.len() == current@.len(),
                forall|k: int| 0 <= k < current@.len() ==> #[trigger] current_keys@[k]@ == current@[k]@,
                found <==> exists|k: int| 0 <= k < j && current@[k]@ == key@,
            decreases current_keys@.len() - j + if found { 0int } else { 1int },
        {
            if compare_names(&current_keys[j], &key) == 0 {
                found = true;
            }
            j = j + 1;
        }
        assert(found <==> current.deep_view().contains(name@)) by {
            assert(current.deep_view().len() == current@.len());
            if current.deep_view().contains(name@) {
                let k = choose|k: int| 0 <= k < current.deep_view().len() && current.deep_view()[k] == name@;
                assert(current.deep_view()[k] == current@[k]@);
            }
            if found {
                let k = choose|k: int| 0 <= k < j && current@[k]@ == key@;
                assert(current.deep_view()[k] == current@[k]@);
            }
        }
        assert(snapshots.deep_view()[i as int] == name@);
        let ghost prev = out.deep_view();
        if !found {
            insert_sorted(&mut out, &mut keys, name, key);
        }
        assert forall|n: Seq<char>| #[trigger] out.deep_view().contains(n) <==> (snapshots.deep_view().subrange(0, i + 1).contains(n)
            && !current.deep_view().contains(n)) by {
            assert(snapshots.deep_view().subrange(0, i + 1) =~= snapshots.deep_view().subrange(0, i as int).push(name@));
            lemma_push_contains(snapshots.deep_view().subrange(0, i as int), name@, n);
            assert(prev.contains(n) <==> (snapshots.deep_view().subrange(0, i as int).contains(n)
                && !current.deep_view().contains(n)));
        }
        i = i + 1;
    }
    assert(snapshots.deep_view().subrange(0, snapshots@.len() as int) =~= snapshots.deep_view());
    out
}

proof fn lemma_sorted_with_same_names_equal(a: Seq<Seq<char>>, b: Seq<Seq<char>>)
    requires
        strictly_sorted(a),
        strictly_sorted(b),
        forall|n: Seq<char>| a.contains(n) <==> b.contains(n),
    ensures
        a == b,
    decreases a.len(),
{
    if a.len() == 0 {
        if b.len() > 0 {
            assert(b.contains(b[0]));
        }
        assert(a =~= b);
    } else {
        assert(a.contains(a[0]));
        assert(b.len() > 0);
        assert(b.contains(b[0]));
        if a[0] != b[0] {
            let k = choose|k: int| 0 <= k < b.len() && b[k] == a[0];
            let m = choose|m: int| 0 <= m < a.len() && a[m] == b[0];
            assert(k > 0 && m > 0);
            assert(name_lt(b[0], a[0]));
            assert(name_lt(a[0], b[0]));
            lemma_name_lt_total(a[0], b[0]);
        }
        let (ta, tb) = (a.drop_first(), b.drop_first());
        assert forall|n: Seq<char>| ta.contains(n) <==> tb.contains(n) by {
            if ta.contains(n) {
                let k = choose|k: int| 0 <= k < ta.len() && ta[k] == n;
                assert(name_lt(a[0], a[k + 1]));
                lemma_name_lt_irreflexive(n);
                assert(b.contains(n));
                let m = choose|m: int| 0 <= m < b.len() && b[m] == n;
                assert(m != 0);
                assert(tb[m - 1] == n);
            }
            if tb.contains(n) {
                let k = choose|k: int| 0 <= k < tb.len() && tb[k] == n;
                assert(name_lt(b[0], b[k + 1]));
                lemma_name_lt_irreflexive(n);
                assert(a.contains(n));
                let m = choose|m: int| 0 <= m < a.len() && a[m] == n;
                assert(m != 0);
                assert(ta[m - 1] == n);
            }
        }
        lemma_sorted_with_same_names_equal(ta, tb);
        assert(a =~= seq![a[0]] + ta);
        assert(b =~= seq![b[0]] + tb);
    }
}

/// The pairing depends on which names each side holds, not on the order in
/// which the directories were listed: two pairings of inputs with the same
/// names, under the same filter, are the same sequence.
pub proof fn lemma_pairing_order_independent(
    left1: Seq<Seq<char>>,
    right1: Seq<Seq<char>>,
    left2: Seq<Seq<char>>,
    right2: Seq<Seq<char>>,
    filter: Option<Seq<char>>,
    out1: Seq<Seq<char>>,
    out2: Seq<Seq<char>>,
)
    requires
        forall|n: Seq<char>| (left1.contains(n) || right1.contains(n)) <==> (left2.contains(n) || right2.contains(n)),
        is_pairing(left1, right1, filter, out1),
        is_pairing(left2, right2, filter, out2),
    ensures
        out1 == out2,
{
    assert forall|n: Seq<char>| out1.contains(n) <==> out2.contains(n) by {
        assert(out1.contains(n) <==> (left1.contains(n) || right1.contains(n)) && passes_filter(n, filter));
        assert(out2.contains(n) <==> (left2.contains(n) || right2.contains(n)) && passes_filter(n, filter));
    }
    lemma_sorted_with_same_names_equal(out1, out2);
}

} // verus!
