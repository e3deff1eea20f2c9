//! Text helpers shared by the key parser and the message builders.

use vstd::prelude::*;

verus! {

/// The pieces of `s` between occurrences of `sep`; always at least one piece.
pub open spec fn split_on(s: Seq<char>, sep: char) -> Seq<Seq<char>>
    decreases s.len(),
{
    if s.len() == 0 {
        seq![Seq::<char>::empty()]
    } else {
        let before = split_on(s.drop_last(), sep);
        if s.last() == sep {
            before.push(Seq::<char>::empty())
        } else {
            before.drop_last().push(before.last().push(s.last()))
        }
    }
}

/// `parts` in order, with `sep` between neighbours.
pub open spec fn join_with(parts: Seq<Seq<char>>, sep: Seq<char>) -> Seq<char>
    decreases parts.len(),
{
    if parts.len() == 0 {
        Seq::<char>::empty()
    } else if parts.len() == 1 {
        parts[0]
    } else {
        join_with(parts.drop_last(), sep) + sep + parts.last()
    }
}

/// The position of the last `c` in `s`, or -1 when there is none.
pub open spec fn last_index(s: Seq<char>, c: char) -> int
    decreases s.len(),
{
    if s.len() == 0 {
        -1
    } else if s.last() == c {
        s.len() - 1
    } else {
        last_index(s.drop_last(), c)
    }
}

pub open spec fn digit(d: nat) -> char {
    (48 + d) as char
}

/// The decimal digits of `n`, without leading zeros.
pub open spec fn decimal(n: nat) -> Seq<char>
    decreases n,
{
    if n < 10 {
        seq![digit(n)]
    } else {
        decimal(n / 10).push(digit(n % 10))
    }
}

/// The texts of a list of strings.
pub open spec fn texts(list: Seq<String>) -> Seq<Seq<char>> {
    list.map_values(|s: String| s@)
}

/// The text of an optional string.
pub open spec fn opt_text(s: Option<String>) -> Option<Seq<char>> {
    match s {
        Some(t) => Some(t@),
        None => None,
    }
}

/// The text of an optional string slice.
pub open spec fn opt_str(s: Option<&str>) -> Option<Seq<char>> {
    match s {
        Some(t) => Some(t@),
        None => None,
    }
}

/// The characters of `s` in order.
pub fn chars_of(s: &str) -> (out: Vec<char>)
    ensures
        out@ == s@,
{
    let mut out: Vec<char> = Vec::new();
    for c in it: s.chars()
        invariant
            out@ == it.seq().take(it.index() as int),
            it.seq() == s@,
    {
        out.push(c);
    }
    out
}

/// Whether two strings hold the same characters.
pub fn same_text(a: &str, b: &str) -> (same: bool)
    ensures
        same == (a@ == b@),
{
    let x = chars_of(a);
    let y = chars_of(b);
    if x.len() != y.len() {
        return false;
    }
    let mut i: usize = 0;
    while i < x.len()
        invariant
            i <= x@.len(),
            x@.len() == y@.len(),
            x@.take(i as int) == y@.take(i as int),
            x@ == a@,
            y@ == b@,
        decreases x@.len() - i,
    {
        if x[i] != y[i] {
            assert(a@[i as int] != b@[i as int]);
            return false;
        }
        assert(x@.take(i + 1) =~= x@.take(i as int).push(x@[i as int]));
        assert(y@.take(i + 1) =~= y@.take(i as int).push(y@[i as int]));
        i += 1;
    }
    assert(x@.take(i as int) =~= x@);
    assert(y@.take(i as int) =~= y@);
    true
}

/// An owned copy of an optional string slice.
pub fn owned(s: Option<&str>) -> (out: Option<String>)
    ensures
        opt_text(out) == opt_str(s),
{
    match s {
        Some(t) => Some(t.to_owned()),
        None => None,
    }
}

/// A borrowed view of an optional string.
pub fn borrowed(s: &Option<String>) -> (out: Option<&str>)
    ensures
        opt_str(out) == opt_text(*s),
{
    match s {
        Some(t) => Some(t.as_str()),
        None => None,
    }
}

/// A copy of a list of strings.
pub fn copy_texts(list: &Vec<String>) -> (out: Vec<String>)
    ensures
        out@ == list@,
{
    let mut out: Vec<String> = Vec::new();
    let mut i: usize = 0;
    while i < list.len()
        invariant
            i <= list@.len(),
            out@ == list@.take(i as int),
        decreases list@.len() - i,
    {
        out.push(list[i].clone());
        assert(list@.take(i + 1) =~= list@.take(i as int).push(list@[i as int]));
        i += 1;
    }
    assert(list@.take(i as int) =~= list@);
    out
}

/// A list of the one string `s`.
pub fn one_text(s: &String) -> (out: Vec<String>)
    ensures
        texts(out@) == seq![s@],
{
    let mut out: Vec<String> = Vec::new();
    out.push(s.clone());
    assert(texts(out@) =~= seq![s@]);
    out
}

/// Whether two optional strings hold the same text, or are both absent.
pub fn same_option(a: Option<&str>, b: Option<&str>) -> (same: bool)
    ensures
        same == (opt_str(a) == opt_str(b)),
{
    match (a, b) {
        (Some(x), Some(y)) => same_text(x, y),
        (None, None) => true,
        _ => false,
    }
}

/// The pieces of `s` between occurrences of `sep`.
pub fn split_text(s: &str, sep: char) -> (parts: Vec<String>)
    ensures
        texts(parts@) == split_on(s@, sep),
        parts@.len() >= 1,
{
    let chars = chars_of(s);
    let mut parts: Vec<String> = Vec::new();
    let mut start: usize = 0;
    let mut i: usize = 0;
    assert(s@.subrange(0, 0) =~= Seq::<char>::empty());
    assert(split_on(s@.take(0), sep) =~= texts(parts@).push(s@.subrange(0, 0)));
    while i < chars.len()
        invariant
            chars@ == s@,
            start <= i <= s@.len(),
            split_on(s@.take(i as int), sep) == texts(parts@).push(
                s@.subrange(start as int, i as int),
            ),
        decreases s@.len() - i,
    {
        let ghost before = texts(parts@);
        proof {
            let longer = s@.take(i + 1);
            assert(longer.drop_last() =~= s@.take(i as int));
            assert(longer.last() == s@[i as int]);
            assert(before.push(s@.subrange(start as int, i as int)).drop_last() =~= before);
        }
        if chars[i] == sep {
            parts.push(s.substring_char(start, i).to_owned());
            start = i + 1;
            assert(texts(parts@) =~= before.push(parts@.last()@));
            assert(s@.subrange(i + 1, i + 1) =~= Seq::<char>::empty());
        } else {
            assert(s@.subrange(start as int, i + 1) =~= s@.subrange(start as int, i as int).push(
                s@[i as int],
            ));
        }
        i += 1;
    }
    let ghost before = texts(parts@);
    parts.push(s.substring_char(start, i).to_owned());
    assert(s@.take(i as int) =~= s@);
    assert(texts(parts@) =~= before.push(parts@.last()@));
    parts
}

/// `parts` in order, with `sep` between neighbours, from index `from` on.
pub fn join_text(parts: &Vec<String>, from: usize, sep: &str) -> (out: String)
    requires
        from <= parts@.len(),
    ensures
        out@ == join_with(texts(parts@).skip(from as int), sep@),
{
    let mut out = String::new();
    let mut i: usize = from;
    let ghost all = texts(parts@).skip(from as int);
    assert(all.take(0) =~= Seq::<Seq<char>>::empty());
    while i < parts.len()
        invariant
            from <= i <= parts@.len(),
            all == texts(parts@).skip(from as int),
            out@ == join_with(all.take(i - from), sep@),
        decreases parts@.len() - i,
    {
        let ghost longer = all.take(i - from + 1);
        assert(longer.drop_last() =~= all.take(i - from));
        assert(longer.last() == parts@[i as int]@);
        if i > from {
            out.append(sep);
            out.append(parts[i].as_str());
        } else {
            out.append(parts[i].as_str());
            assert(out@ =~= longer[0]);
        }
        i += 1;
    }
    assert(all.take(i - from) =~= all);
    out
}

fn digit_text(d: u64) -> (out: String)
    requires
        d < 10,
    ensures
        out@ == seq![digit(d as nat)],
{
    let text: &str = match d {
        0 => "0",
        1 => "1",
        2 => "2",
        3 => "3",
        4 => "4",
        5 => "5",
        6 => "6",
        7 => "7",
        8 => "8",
        _ => "9",
    };
    proof {
        reveal_strlit("0");
        reveal_strlit("1");
        reveal_strlit("2");
        reveal_strlit("3");
        reveal_strlit("4");
        reveal_strlit("5");
        reveal_strlit("6");
        reveal_strlit("7");
        reveal_strlit("8");
        reveal_strlit("9");
    }
    assert(text@ =~= seq![digit(d as nat)]);
    text.to_owned()
}

/// `n` written in decimal.
pub fn decimal_text(n: u64) -> (out: String)
    ensures
        out@ == decimal(n as nat),
    decreases n,
{
    if n < 10 {
        digit_text(n)
    } else {
        let mut out = decimal_text(n / 10);
        let last = digit_text(n % 10);
        out.append(last.as_str());
        assert(out@ =~= decimal(n as nat));
        out
    }
}

/// Whether `a` comes no later than `b`: the first differing characters decide, and
/// a beginning comes before what it begins.
pub open spec fn text_le(a: Seq<char>, b: Seq<char>) -> bool
    decreases a.len(),
{
    if a.len() == 0 {
        true
    } else if b.len() == 0 {
        false
    } else if a[0] != b[0] {
        a[0] < b[0]
    } else {
        text_le(a.drop_first(), b.drop_first())
    }
}

/// Names in ascending order, each once.
pub open spec fn in_order(names: Seq<Seq<char>>) -> bool {
    forall|i: int, j: int|
        0 <= i < j < names.len() ==> #[trigger] names[i] != #[trigger] names[j] && text_le(
            names[i],
            names[j],
        )
}

proof fn lemma_le_total(a: Seq<char>, b: Seq<char>)
    ensures
        text_le(a, b) || text_le(b, a),
    decreases a.len(),
{
    if a.len() > 0 && b.len() > 0 && a[0] == b[0] {
        lemma_le_total(a.drop_first(), b.drop_first());
    }
}

proof fn lemma_le_transitive(a: Seq<char>, b: Seq<char>, c: Seq<char>)
    requires
        text_le(a, b),
        text_le(b, c),
    ensures
        text_le(a, c),
    decreases a.len(),
{
    if a.len() > 0 && b.len() > 0 && c.len() > 0 && a[0] == b[0] && b[0] == c[0] {
        lemma_le_transitive(a.drop_first(), b.drop_first(), c.drop_first());
    }
}

proof fn lemma_le_antisymmetric(a: Seq<char>, b: Seq<char>)
    requires
        text_le(a, b),
        text_le(b, a),
    ensures
        a == b,
    decreases a.len(),
{
    if a.len() > 0 && b.len() > 0 {
        lemma_le_antisymmetric(a.drop_first(), b.drop_first());
        assert(a =~= seq![a[0]] + a.drop_first());
        assert(b =~= seq![b[0]] + b.drop_first());
    } else {
        assert(a =~= b);
    }
}

/// There is one way to put names in order.
pub proof fn law_order_is_unique(a: Seq<Seq<char>>, b: Seq<Seq<char>>)
    requires
        in_order(a),
        in_order(b),
        forall|n: Seq<char>| a.contains(n) <==> b.contains(n),
    ensures
        a == b,
    decreases a.len(),
{
    if a.len() == 0 {
        if b.len() > 0 {
            assert(b.contains(b[0]));
        }
        assert(a =~= b);
    } else {
        assert(a.contains(a.last()));
        assert(b.len() > 0);
        assert(b.contains(b.last()));
        let i = choose|i: int| 0 <= i < b.len() && b[i] == a.last();
        let j = choose|j: int| 0 <= j < a.len() && a[j] == b.last();
        if a.last() != b.last() {
            assert(text_le(b[i], b[b.len() - 1]));
            assert(text_le(a[j], a[a.len() - 1]));
            lemma_le_antisymmetric(a.last(), b.last());
        }
        let x = a.drop_last();
        let y = b.drop_last();
        assert forall|n: Seq<char>| x.contains(n) <==> y.contains(n) by {
            if x.contains(n) {
                let k = choose|k: int| 0 <= k < x.len() && x[k] == n;
                assert(a[k] == n && a[k] != a[a.len() - 1]);
                assert(a.contains(n));
                let m = choose|m: int| 0 <= m < b.len() && b[m] == n;
                assert(y[m] == n);
            }
            if y.contains(n) {
                let k = choose|k: int| 0 <= k < y.len() && y[k] == n;
                assert(b[k] == n && b[k] != b[b.len() - 1]);
                assert(b.contains(n));
                let m = choose|m: int| 0 <= m < a.len() && a[m] == n;
                assert(x[m] == n);
            }
        }
        law_order_is_unique(x, y);
        assert(a =~= x.push(a.last()));
        assert(b =~= y.push(b.last()));
    }
}

fn no_later(a: &str, b: &str) -> (before: bool)
    ensures
        before == text_le(a@, b@),
{
    let x = chars_of(a);
    let y = chars_of(b);
    let mut i: usize = 0;
    assert(a@.skip(0) =~= a@);
    assert(b@.skip(0) =~= b@);
    while i < x.len()
        invariant
            i <= x@.len(),
            i <= y@.len(),
            x@ == a@,
            y@ == b@,
            text_le(a@, b@) == text_le(a@.skip(i as int), b@.skip(i as int)),
        decreases x@.len() - i,
    {
        if i == y.len() {
            return false;
        }
        assert(a@.skip(i as int)[0] == x@[i as int]);
        assert(b@.skip(i as int)[0] == y@[i as int]);
        if x[i] != y[i] {
            return x[i] < y[i];
        }
        assert(a@.skip(i as int).drop_first() =~= a@.skip(i + 1));
        assert(b@.skip(i as int).drop_first() =~= b@.skip(i + 1));
        i += 1;
    }
    true
}

fn place(sorted: &mut Vec<String>, name: String)
    requires
        in_order(texts(old(sorted)@)),
        !texts(old(sorted)@).contains(name@),
    ensures
        in_order(texts(final(sorted)@)),
        forall|n: Seq<char>|
            texts(final(sorted)@).contains(n) <==> texts(old(sorted)@).contains(n) || n == name@,
        final(sorted)@.len() == old(sorted)@.len() + 1,
{
    let ghost before = texts(sorted@);
    let mut at: usize = 0;
    while at < sorted.len() && no_later(sorted[at].as_str(), name.as_str())
        invariant
            at <= sorted@.len(),
            before == texts(sorted@),
            forall|j: int| 0 <= j < at ==> text_le(#[trigger] before[j], name@),
        decreases sorted@.len() - at,
    {
        assert(before[at as int] == sorted@[at as int]@);
        at += 1;
    }
    sorted.insert(at, name);
    proof {
        let after = texts(sorted@);
        assert(after =~= before.insert(at as int, name@));
        assert forall|j: int| at <= j < before.len() implies text_le(name@, #[trigger] before[j]) by {
            lemma_le_total(name@, before[at as int]);
            if j > at {
                assert(text_le(before[at as int], before[j]));
                lemma_le_transitive(name@, before[at as int], before[j]);
            }
        }
        assert forall|j: int| 0 <= j < before.len() implies #[trigger] before[j] != name@ by {
            assert(before.contains(before[j]));
        }
        assert forall|i: int, j: int| 0 <= i < j < after.len() implies #[trigger] after[i]
            != #[trigger] after[j] && text_le(after[i], after[j]) by {
            let x = if i < at { i } else { i - 1 };
            let y = if j < at { j } else { j - 1 };
            if i == at {
                assert(after[j] == before[y]);
            } else if j == at {
                assert(after[i] == before[x]);
            } else {
                assert(after[i] == before[x]);
                assert(after[j] == before[y]);
            }
        }
        assert forall|n: Seq<char>| after.contains(n) <==> before.contains(n) || n == name@ by {
            if before.contains(n) {
                let k = choose|k: int| 0 <= k < before.len() && before[k] == n;
                assert(after[if k < at { k } else { k + 1 }] == n);
            }
            if n == name@ {
                assert(after[at as int] == n);
            }
            if after.contains(n) {
                let k = choose|k: int| 0 <= k < after.len() && after[k] == n;
                if k != at {
                    assert(before[if k < at { k } else { k - 1 }] == n);
                }
            }
        }
    }
}

/// Distinct names put in order.
pub fn sort_names(names: &Vec<String>) -> (sorted: Vec<String>)
    requires
        texts(names@).no_duplicates(),
    ensures
        in_order(texts(sorted@)),
        forall|n: Seq<char>| texts(sorted@).contains(n) <==> texts(names@).contains(n),
        sorted@.len() == names@.len(),
{
    let mut sorted: Vec<String> = Vec::new();
    let mut i: usize = 0;
    let ghost all = texts(names@);
    while i < names.len()
        invariant
            i <= names@.len(),
            all == texts(names@),
            all.no_duplicates(),
            in_order(texts(sorted@)),
            sorted@.len() == i,
            forall|n: Seq<char>| texts(sorted@).contains(n) <==> all.take(i as int).contains(n),
        decreases names@.len() - i,
    {
        let ghost before = texts(sorted@);
        proof {
            assert(all[i as int] == names@[i as int]@);
            assert(!all.take(i as int).contains(all[i as int])) by {
                if all.take(i as int).contains(all[i as int]) {
                    let k = choose|k: int|
                        0 <= k < i && all.take(i as int)[k] == all[i as int];
                    assert(all[k] == all[i as int]);
                }
            }
        }
        place(&mut sorted, names[i].clone());
        proof {
            let longer = all.take(i + 1);
            assert(longer =~= all.take(i as int).push(all[i as int]));
            assert forall|n: Seq<char>| texts(sorted@).contains(n) <==> longer.contains(n) by {
                if all.take(i as int).contains(n) {
                    let k = choose|k: int| 0 <= k < i && all.take(i as int)[k] == n;
                    assert(longer[k] == n);
                }
                if n == all[i as int] {
                    assert(longer[i as int] == n);
                }
                if longer.contains(n) {
                    let k = choose|k: int| 0 <= k < longer.len() && longer[k] == n;
                    if k < i {
                        assert(all.take(i as int)[k] == n);
                    }
                }
            }
        }
        i += 1;
    }
    assert(all.take(i as int) =~= all);
    sorted
}

/// Splitting yields at least one piece, and no piece holds the separator.
pub proof fn law_split_pieces(s: Seq<char>, sep: char)
    ensures
        split_on(s, sep).len() >= 1,
        forall|i: int|
            0 <= i < split_on(s, sep).len() ==> !(#[trigger] split_on(s, sep)[i]).contains(sep),
    decreases s.len(),
{
    let parts = split_on(s, sep);
    if s.len() > 0 {
        law_split_pieces(s.drop_last(), sep);
        let before = split_on(s.drop_last(), sep);
        assert forall|i: int| 0 <= i < parts.len() implies !(#[trigger] parts[i]).contains(sep) by {
            if i < before.len() - 1 || s.last() == sep {
                if i < before.len() {
                    assert(parts[i] == before[i]);
                }
            } else {
                let grown = before.last().push(s.last());
                assert(parts[i] == grown);
                assert forall|j: int| 0 <= j < grown.len() implies grown[j] != sep by {
                    if j < grown.len() - 1 {
                        assert(before.last()[j] == grown[j]);
                        assert(before[before.len() - 1] == before.last());
                    }
                }
            }
        }
    }
}

/// Joining the pieces of a split with the separator gives the text back.
pub proof fn law_join_undoes_split(s: Seq<char>, sep: char)
    ensures
        join_with(split_on(s, sep), seq![sep]) == s,
    decreases s.len(),
{
    if s.len() > 0 {
        let before = split_on(s.drop_last(), sep);
        law_join_undoes_split(s.drop_last(), sep);
        law_split_pieces(s.drop_last(), sep);
        let parts = split_on(s, sep);
        let empty = Seq::<char>::empty();
        if s.last() == sep {
            assert(parts.drop_last() =~= before);
            assert(join_with(parts, seq![sep]) =~= s.drop_last() + seq![sep] + empty);
            assert(s =~= s.drop_last() + seq![sep] + empty);
        } else {
            assert(parts.drop_last() =~= before.drop_last());
            if before.len() == 1 {
                assert(parts[0] =~= before[0].push(s.last()));
            } else {
                assert(join_with(parts, seq![sep]) =~= join_with(before, seq![sep]).push(s.last()));
            }
            assert(s =~= s.drop_last().push(s.last()));
        }
    }
}

/// A text without the separator is its own only piece.
pub proof fn law_split_single(s: Seq<char>, sep: char)
    requires
        !s.contains(sep),
    ensures
        split_on(s, sep) == seq![s],
    decreases s.len(),
{
    if s.len() > 0 {
        let init = s.drop_last();
        assert(s[s.len() - 1] != sep);
        assert forall|i: int| 0 <= i < init.len() implies init[i] != sep by {
            assert(s[i] == init[i]);
        }
        law_split_single(init, sep);
        assert(init.push(s.last()) =~= s);
        assert(split_on(s, sep) =~= seq![s]);
    } else {
        assert(s =~= Seq::<char>::empty());
    }
}

/// The first piece of a split ends at the first separator.
pub proof fn law_split_first(head: Seq<char>, rest: Seq<char>, sep: char)
    requires
        !head.contains(sep),
    ensures
        split_on(head + seq![sep] + rest, sep) == seq![head] + split_on(rest, sep),
    decreases rest.len(),
{
    let s = head + seq![sep] + rest;
    law_split_pieces(rest, sep);
    if rest.len() == 0 {
        assert(s.drop_last() =~= head);
        law_split_single(head, sep);
        assert(rest =~= Seq::<char>::empty());
        assert(split_on(s, sep) =~= seq![head] + split_on(rest, sep));
    } else {
        let before = split_on(rest.drop_last(), sep);
        assert(s.drop_last() =~= head + seq![sep] + rest.drop_last());
        law_split_first(head, rest.drop_last(), sep);
        law_split_pieces(rest.drop_last(), sep);
        assert((seq![head] + before).last() == before.last());
        assert((seq![head] + before).drop_last() =~= seq![head] + before.drop_last());
        assert(split_on(s, sep) =~= seq![head] + split_on(rest, sep));
    }
}

/// Joining begins with the first piece.
pub proof fn lemma_join_first(parts: Seq<Seq<char>>, sep: Seq<char>)
    requires
        parts.len() >= 2,
    ensures
        join_with(parts, sep) == parts[0] + sep + join_with(parts.skip(1), sep),
    decreases parts.len(),
{
    let rest = parts.skip(1);
    if parts.len() == 2 {
        assert(join_with(parts.drop_last(), sep) == parts[0]);
        assert(join_with(rest, sep) == parts[1]);
    } else {
        lemma_join_first(parts.drop_last(), sep);
        assert(parts.drop_last().skip(1) =~= rest.drop_last());
        assert(rest.last() == parts.last());
        assert(join_with(parts, sep) =~= parts[0] + sep + join_with(rest, sep));
    }
}

/// The number that a row of decimal digits stands for.
pub open spec fn numeral(s: Seq<char>) -> nat
    decreases s.len(),
{
    if s.len() == 0 {
        0
    } else {
        numeral(s.drop_last()) * 10 + (s.last() as nat - '0' as nat) as nat
    }
}

/// A number is written as the decimal digits that stand for it, without a leading
/// zero.
pub proof fn law_decimal_stands_for_its_number(n: nat)
    ensures
        numeral(decimal(n)) == n,
        decimal(n).len() > 0,
        forall|i: int|
            0 <= i < decimal(n).len() ==> '0' <= #[trigger] decimal(n)[i] && decimal(n)[i] <= '9',
        n > 0 ==> decimal(n)[0] != '0',
        n == 0 ==> decimal(n).len() == 1,
    decreases n,
{
    if n < 10 {
        let s = decimal(n);
        assert(s.drop_last() =~= Seq::<char>::empty());
        assert(numeral(s.drop_last()) == 0);
        assert(s.last() == digit(n));
    } else {
        law_decimal_stands_for_its_number(n / 10);
        let s = decimal(n);
        assert(s.drop_last() =~= decimal(n / 10));
        assert(s.last() == digit(n % 10));
        assert forall|i: int| 0 <= i < s.len() implies '0' <= #[trigger] s[i] && s[i] <= '9' by {
            if i < s.len() - 1 {
                assert(s[i] == decimal(n / 10)[i]);
            }
        }
        assert(s[0] == decimal(n / 10)[0]);
    }
}

/// Texts are ordered by their first differing characters, and a beginning comes
/// before what it begins.
pub proof fn law_order_is_lexical(a: Seq<char>, b: Seq<char>, i: int)
    requires
        0 <= i <= a.len(),
        i <= b.len(),
        a.take(i) == b.take(i),
    ensures
        i == a.len() ==> text_le(a, b),
        i == b.len() && i < a.len() ==> !text_le(a, b),
        i < a.len() && i < b.len() && a[i] != b[i] ==> (text_le(a, b) <==> a[i] < b[i]),
    decreases a.len(),
{
    if i > 0 {
        assert(a[0] == a.take(i)[0] && b[0] == b.take(i)[0]);
        let x = a.drop_first();
        let y = b.drop_first();
        assert(x.take(i - 1) =~= a.take(i).drop_first());
        assert(y.take(i - 1) =~= b.take(i).drop_first());
        law_order_is_lexical(x, y, i - 1);
        if i < a.len() && i < b.len() {
            assert(x[i - 1] == a[i] && y[i - 1] == b[i]);
        }
    }
}

/// Joining no pieces gives nothing, and joining one gives that one.
pub proof fn law_join_of_few(part: Seq<char>, sep: Seq<char>)
    ensures
        join_with(Seq::empty(), sep) == Seq::<char>::empty(),
        join_with(seq![part], sep) == part,
{
}

/// The texts of a list are those of its strings, one by one.
pub proof fn law_texts_are_the_strings(list: Seq<String>, one: Option<String>, other: Option<&str>)
    ensures
        texts(list).len() == list.len(),
        forall|i: int| 0 <= i < list.len() ==> #[trigger] texts(list)[i] == list[i]@,
        opt_text(one) == match one {
            Some(s) => Some(s@),
            None => None,
        },
        opt_str(other) == match other {
            Some(s) => Some(s@),
            None => None,
        },
{
}

} // verus!
