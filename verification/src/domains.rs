//! The comma-separated domain list: parsing the text a user types, joining a
//! list back into the form the DuckDNS API takes, and the facts that tie the
//! two together.

use vstd::prelude::*;
use crate::text::{chars_of, is_ws, string_from_chars, trim, trim_chars, trim_end, trim_start};

verus! {

/// The pieces of `s` between occurrences of `sep`, as `str::split(sep)` yields
/// them (an empty text gives one empty piece).
pub open spec fn split_on(s: Seq<char>, sep: char) -> Seq<Seq<char>>
    decreases s.len(),
{
    if s.len() == 0 {
        seq![Seq::<char>::empty()]
    } else {
        let r = split_on(s.drop_last(), sep);
        if s.last() == sep {
            r.push(Seq::<char>::empty())
        } else {
            r.update(r.len() - 1, r.last().push(s.last()))
        }
    }
}

/// Each piece trimmed, the pieces that are then empty left out.
pub open spec fn keep_trimmed(pieces: Seq<Seq<char>>) -> Seq<Seq<char>>
    decreases pieces.len(),
{
    if pieces.len() == 0 {
        Seq::empty()
    } else {
        let r = keep_trimmed(pieces.drop_last());
        let t = trim(pieces.last());
        if t.len() > 0 {
            r.push(t)
        } else {
            r
        }
    }
}

/// The domains named by a comma-separated text: split at `,`, trimmed,
/// blanks dropped.
pub open spec fn domain_list(s: Seq<char>) -> Seq<Seq<char>> {
    keep_trimmed(split_on(s, ','))
}

/// `parts` joined with `sep` between consecutive parts (`[T]::join`).
pub open spec fn join(parts: Seq<Seq<char>>, sep: Seq<char>) -> Seq<char>
    decreases parts.len(),
{
    if parts.len() == 0 {
        Seq::empty()
    } else if parts.len() == 1 {
        parts[0]
    } else {
        join(parts.drop_last(), sep) + sep + parts.last()
    }
}

/// The character sequences of a list of strings.
pub open spec fn views(v: Seq<String>) -> Seq<Seq<char>> {
    v.map_values(|x: String| x@)
}

proof fn lemma_split_nonempty(s: Seq<char>, sep: char)
    ensures
        split_on(s, sep).len() >= 1,
    decreases s.len(),
{
    if s.len() > 0 {
        lemma_split_nonempty(s.drop_last(), sep);
    }
}


/// `s` has no occurrence of `c`.
pub open spec fn free_of(s: Seq<char>, c: char) -> bool {
    forall|i: int| 0 <= i < s.len() ==> s[i] != c
}

proof fn lemma_trim_start_suffix(s: Seq<char>)
    ensures
        trim_start(s).len() <= s.len(),
        trim_start(s) == s.subrange(s.len() - trim_start(s).len(), s.len() as int),
        trim_start(s).len() > 0 ==> !is_ws(trim_start(s)[0]),
    decreases s.len(),
{
    if s.len() > 0 && is_ws(s[0]) {
        let d = s.drop_first();
        lemma_trim_start_suffix(d);
        assert(trim_start(s) == trim_start(d));
        assert(d.subrange(d.len() - trim_start(s).len(), d.len() as int) =~= s.subrange(
            s.len() - trim_start(s).len(),
            s.len() as int,
        ));
    } else {
        assert(trim_start(s) == s);
        assert(s.subrange(0, s.len() as int) =~= s);
    }
}

proof fn lemma_trim_end_prefix(s: Seq<char>)
    ensures
        trim_end(s).len() <= s.len(),
        trim_end(s) == s.subrange(0, trim_end(s).len() as int),
        trim_end(s).len() > 0 ==> !is_ws(trim_end(s).last()),
    decreases s.len(),
{
    if s.len() > 0 && is_ws(s.last()) {
        let d = s.drop_last();
        lemma_trim_end_prefix(d);
        assert(trim_end(s) == trim_end(d));
        assert(d.subrange(0, trim_end(s).len() as int) =~= s.subrange(
            0,
            trim_end(s).len() as int,
        ));
    } else {
        assert(trim_end(s) == s);
        assert(s.subrange(0, s.len() as int) =~= s);
    }
}

/// A text that begins with a non-whitespace character keeps it when trimmed.
proof fn lemma_trim_end_keeps_first(s: Seq<char>)
    requires
        s.len() > 0,
        !is_ws(s[0]),
    ensures
        trim_end(s).len() > 0,
    decreases s.len(),
{
    if s.len() > 1 && is_ws(s.last()) {
        lemma_trim_end_keeps_first(s.drop_last());
    }
}

/// Trimming a trimmed text changes nothing.
pub proof fn lemma_trim_idempotent(s: Seq<char>)
    ensures
        trim(trim(s)) == trim(s),
{
    let u = trim_start(s);
    let t = trim_end(u);
    lemma_trim_start_suffix(s);
    lemma_trim_end_prefix(u);
    if t.len() > 0 {
        assert(t[0] == u[0]);
        assert(trim_start(t) == t);
        assert(trim_end(t) == t);
    }
}

/// A trimmed piece of `s` is a stretch of `s`, so it has no character that `s` lacks.
proof fn lemma_trim_free_of(s: Seq<char>, c: char)
    requires
        free_of(s, c),
    ensures
        free_of(trim(s), c),
{
    let u = trim_start(s);
    lemma_trim_start_suffix(s);
    lemma_trim_end_prefix(u);
    assert forall|i: int| 0 <= i < trim(s).len() implies trim(s)[i] != c by {
        assert(trim(s)[i] == u[i]);
        assert(u[i] == s[s.len() - u.len() + i]);
    }
}

proof fn lemma_split_free_of(s: Seq<char>, sep: char)
    ensures
        forall|k: int| 0 <= k < split_on(s, sep).len() ==> free_of(#[trigger] split_on(s, sep)[k], sep),
    decreases s.len(),
{
    if s.len() > 0 {
        lemma_split_free_of(s.drop_last(), sep);
        lemma_split_nonempty(s.drop_last(), sep);
        let r = split_on(s.drop_last(), sep);
        if s.last() != sep {
            assert(free_of(r.last(), sep));
            assert(free_of(r.last().push(s.last()), sep));
        }
    }
}

proof fn lemma_keep_trimmed_shape(pieces: Seq<Seq<char>>, sep: char)
    requires
        forall|k: int| 0 <= k < pieces.len() ==> free_of(#[trigger] pieces[k], sep),
    ensures
        forall|k: int| 0 <= k < keep_trimmed(pieces).len() ==> {
            &&& (#[trigger] keep_trimmed(pieces)[k]).len() > 0
            &&& trim(keep_trimmed(pieces)[k]) == keep_trimmed(pieces)[k]
            &&& free_of(keep_trimmed(pieces)[k], sep)
        },
    decreases pieces.len(),
{
    if pieces.len() > 0 {
        let init = pieces.drop_last();
        assert forall|k: int| 0 <= k < init.len() implies free_of(#[trigger] init[k], sep) by {
            assert(init[k] == pieces[k]);
        }
        lemma_keep_trimmed_shape(init, sep);
        let r = keep_trimmed(init);
        let t = trim(pieces.last());
        assert(free_of(pieces[pieces.len() - 1], sep));
        lemma_trim_idempotent(pieces.last());
        lemma_trim_free_of(pieces.last(), sep);
        if t.len() > 0 {
            assert(keep_trimmed(pieces) == r.push(t));
            assert forall|k: int| 0 <= k < r.push(t).len() implies {
                &&& (#[trigger] r.push(t)[k]).len() > 0
                &&& trim(r.push(t)[k]) == r.push(t)[k]
                &&& free_of(r.push(t)[k], sep)
            } by {
                if k < r.len() {
                    assert(r.push(t)[k] == r[k]);
                } else {
                    assert(r.push(t)[k] == t);
                }
            }
        } else {
            assert(keep_trimmed(pieces) == r);
        }
    }
}

/// Every domain that `domain_list` yields is non-empty, trimmed and free of commas.
pub proof fn lemma_domain_list_shape(s: Seq<char>)
    ensures
        forall|k: int| 0 <= k < domain_list(s).len() ==> {
            &&& (#[trigger] domain_list(s)[k]).len() > 0
            &&& trim(domain_list(s)[k]) == domain_list(s)[k]
            &&& free_of(domain_list(s)[k], ',')
        },
{
    lemma_split_free_of(s, ',');
    lemma_keep_trimmed_shape(split_on(s, ','), ',');
}

proof fn lemma_split_single(b: Seq<char>, sep: char)
    requires
        free_of(b, sep),
    ensures
        split_on(b, sep) == seq![b],
    decreases b.len(),
{
    if b.len() > 0 {
        let d = b.drop_last();
        assert(free_of(d, sep));
        lemma_split_single(d, sep);
        assert(b.last() == b[b.len() - 1]);
        assert(b.last() != sep);
        assert(split_on(b, sep) == split_on(d, sep).update(0, d.push(b.last())));
        assert(d.push(b.last()) =~= b);
        assert(seq![d].update(0, b) =~= seq![b]);
    } else {
        assert(b =~= Seq::<char>::empty());
    }
}

proof fn lemma_split_append(a: Seq<char>, b: Seq<char>, sep: char)
    requires
        free_of(b, sep),
    ensures
        split_on(a + seq![sep] + b, sep) == split_on(a, sep).push(b),
    decreases b.len(),
{
    lemma_split_nonempty(a, sep);
    let s = a + seq![sep] + b;
    if b.len() == 0 {
        assert(s =~= a.push(sep));
        assert(s.drop_last() =~= a);
        assert(s.last() == sep);
        assert(b =~= Seq::<char>::empty());
        assert(split_on(s, sep) == split_on(a, sep).push(Seq::<char>::empty()));
    } else {
        let d = b.drop_last();
        assert(free_of(d, sep));
        assert(b.last() == b[b.len() - 1]);
        lemma_split_append(a, d, sep);
        assert(s.drop_last() =~= a + seq![sep] + d);
        assert(s.last() == b.last());
        let r = split_on(a, sep).push(d);
        assert(split_on(s, sep) == r.update(r.len() - 1, r.last().push(s.last())));
        assert(d.push(b.last()) =~= b);
        assert(r.update(r.len() - 1, b) =~= split_on(a, sep).push(b));
    }
}

proof fn lemma_split_join(ds: Seq<Seq<char>>, sep: char)
    requires
        ds.len() >= 1,
        forall|k: int| 0 <= k < ds.len() ==> free_of(#[trigger] ds[k], sep),
    ensures
        split_on(join(ds, seq![sep]), sep) == ds,
    decreases ds.len(),
{
    if ds.len() == 1 {
        assert(free_of(ds[0], sep));
        lemma_split_single(ds[0], sep);
        assert(seq![ds[0]] =~= ds);
    } else {
        let init = ds.drop_last();
        assert forall|k: int| 0 <= k < init.len() implies free_of(#[trigger] init[k], sep) by {
            assert(init[k] == ds[k]);
        }
        lemma_split_join(init, sep);
        assert(free_of(ds.last(), sep));
        lemma_split_append(join(init, seq![sep]), ds.last(), sep);
        assert(init.push(ds.last()) =~= ds);
    }
}

proof fn lemma_keep_trimmed_fixed(ds: Seq<Seq<char>>)
    requires
        forall|k: int| 0 <= k < ds.len() ==> (#[trigger] ds[k]).len() > 0 && trim(ds[k]) == ds[k],
    ensures
        keep_trimmed(ds) == ds,
    decreases ds.len(),
{
    if ds.len() > 0 {
        let init = ds.drop_last();
        assert forall|k: int| 0 <= k < init.len() implies (#[trigger] init[k]).len() > 0 && trim(
            init[k],
        ) == init[k] by {
            assert(init[k] == ds[k]);
        }
        lemma_keep_trimmed_fixed(init);
        assert(ds.last() == ds[ds.len() - 1]);
        assert(init.push(ds.last()) =~= ds);
    }
}

/// Law: a list of domain names, each non-empty, free of surrounding
/// whitespace and of commas, joined with commas (the form stored and sent to
/// the API) reads back as the same list.
pub proof fn lemma_join_then_parse(ds: Seq<Seq<char>>)
    requires
        forall|k: int|
            0 <= k < ds.len() ==> (#[trigger] ds[k]).len() > 0 && trim(ds[k]) == ds[k] && free_of(
                ds[k],
                ',',
            ),
    ensures
        domain_list(join(ds, seq![','])) == ds,
{
    if ds.len() == 0 {
        assert(split_on(Seq::<char>::empty(), ',') =~= seq![Seq::<char>::empty()]);
        let e = Seq::<char>::empty();
        assert(trim_start(e) == e);
        assert(trim_end(e) == e);
        assert(seq![e].drop_last() =~= Seq::<Seq<char>>::empty());
        assert(keep_trimmed(Seq::<Seq<char>>::empty()) == Seq::<Seq<char>>::empty());
        assert(keep_trimmed(seq![e]) =~= Seq::<Seq<char>>::empty());
    } else {
        lemma_split_join(ds, ',');
        lemma_keep_trimmed_fixed(ds);
    }
}

/// Law: a domain list joined with commas reads back as the same list.
pub proof fn lemma_domain_list_roundtrip(s: Seq<char>)
    ensures
        domain_list(join(domain_list(s), seq![','])) == domain_list(s),
{
    lemma_domain_list_shape(s);
    lemma_join_then_parse(domain_list(s));
}

/// A join whose first part is non-empty begins with that part's first character.
pub proof fn lemma_join_first(ds: Seq<Seq<char>>, sep: Seq<char>)
    requires
        ds.len() > 0,
        ds[0].len() > 0,
    ensures
        join(ds, sep).len() > 0,
        join(ds, sep)[0] == ds[0][0],
    decreases ds.len(),
{
    if ds.len() > 1 {
        let init = ds.drop_last();
        assert(init[0] == ds[0]);
        lemma_join_first(init, sep);
    }
}

/// A non-empty text that trimming leaves unchanged begins with a
/// non-whitespace character.
pub proof fn lemma_trimmed_first(s: Seq<char>)
    requires
        s.len() > 0,
        trim(s) == s,
    ensures
        !is_ws(s[0]),
{
    lemma_trim_start_suffix(s);
    lemma_trim_end_prefix(trim_start(s));
    if is_ws(s[0]) {
        assert(trim_start(s) == trim_start(s.drop_first()));
        lemma_trim_start_suffix(s.drop_first());
        assert(trim(s).len() < s.len());
    }
}

/// A text that begins with a non-whitespace character is non-empty once trimmed.
pub proof fn lemma_trim_nonempty(s: Seq<char>)
    requires
        s.len() > 0,
        !is_ws(s[0]),
    ensures
        trim(s).len() > 0,
{
    assert(trim_start(s) == s);
    lemma_trim_end_keeps_first(s);
}

/// The domains named by `s` (see `domain_list`), in order.
pub fn parse_domain_list(s: &str) -> (r: Vec<String>)
    ensures
        views(r@) == domain_list(s@),
{
    let v = chars_of(s);
    let n = v.len();
    let mut r: Vec<String> = Vec::new();
    let mut cur: Vec<char> = Vec::new();
    let ghost mut done: Seq<Seq<char>> = Seq::empty();
    let mut i: usize = 0;
    assert(v@.take(0) =~= Seq::<char>::empty());
    assert(split_on(v@.take(0), ',') =~= done.push(cur@));
    while i < n
        invariant
            i <= n,
            n == v@.len(),
            split_on(v@.take(i as int), ',') == done.push(cur@),
            views(r@) == keep_trimmed(done),
        decreases n - i,
    {
        let c = v[i];
        assert(v@.take(i + 1).drop_last() =~= v@.take(i as int));
        assert(v@.take(i + 1).last() == c);
        proof {
            lemma_split_nonempty(v@.take(i as int), ',');
        }
        if c == ',' {
            let t = trim_chars(&cur);
            proof {
                assert(done.push(cur@).drop_last() =~= done);
            }
            if t.len() > 0 {
                let ts = string_from_chars(t.as_slice());
                r.push(ts);
                assert(views(r@) =~= keep_trimmed(done.push(cur@)));
            }
            proof {
                done = done.push(cur@);
            }
            cur = Vec::new();
            assert(split_on(v@.take(i + 1), ',') =~= done.push(cur@));
        } else {
            let ghost old_cur = cur@;
            cur.push(c);
            assert(split_on(v@.take(i + 1), ',') =~= done.push(cur@));
        }
        i += 1;
    }
    assert(v@.take(n as int) =~= v@);
    let t = trim_chars(&cur);
    proof {
        assert(done.push(cur@).drop_last() =~= done);
    }
    if t.len() > 0 {
        let ts = string_from_chars(t.as_slice());
        r.push(ts);
        assert(views(r@) =~= keep_trimmed(done.push(cur@)));
    }
    r
}

/// `parts` joined with `sep` between consecutive parts.
pub fn join_strings(parts: &Vec<String>, sep: &str) -> (r: String)
    ensures
        r@ == join(views(parts@), sep@),
{
    let mut r = String::new();
    let n = parts.len();
    let mut i: usize = 0;
    assert(views(parts@).take(0) =~= Seq::<Seq<char>>::empty());
    while i < n
        invariant
            i <= n,
            n == parts@.len(),
            r@ == join(views(parts@).take(i as int), sep@),
        decreases n - i,
    {
        let ghost before = views(parts@).take(i as int);
        assert(views(parts@).take(i + 1).drop_last() =~= before);
        assert(views(parts@).take(i + 1).last() == parts@[i as int]@);
        if i == 0 {
            r.append(parts[i].as_str());
            assert(views(parts@).take(1) =~= seq![parts@[0]@]);
        } else {
            r.append(sep);
            r.append(parts[i].as_str());
        }
        i += 1;
    }
    assert(views(parts@).take(n as int) =~= views(parts@));
    r
}

} // verus!
