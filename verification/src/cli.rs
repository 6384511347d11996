//! The server's command-line options.
use vstd::prelude::*;
use crate::text::push_char;

verus! {

/// The pieces of `s` between occurrences of `sep`, as `str::split` yields them.
pub open spec fn split_on(s: Seq<char>, sep: char) -> Seq<Seq<char>>
    decreases s.len(),
{
    if s.len() == 0 {
        seq![Seq::empty()]
    } else {
        let pieces = split_on(s.drop_last(), sep);
        if s.last() == sep {
            pieces.push(Seq::empty())
        } else {
            pieces.update(pieces.len() - 1, pieces.last().push(s.last()))
        }
    }
}

/// There is always at least one piece.
pub proof fn lemma_split_on_nonempty(s: Seq<char>, sep: char)
    ensures
        split_on(s, sep).len() >= 1,
    decreases s.len(),
{
    if s.len() > 0 {
        lemma_split_on_nonempty(s.drop_last(), sep);
    }
}

/// The pieces joined back together, with `sep` between each two.
pub open spec fn join_pieces(pieces: Seq<Seq<char>>, sep: char) -> Seq<char>
    decreases pieces.len(),
{
    if pieces.len() == 0 {
        Seq::empty()
    } else if pieces.len() == 1 {
        pieces[0]
    } else {
        join_pieces(pieces.drop_last(), sep) + seq![sep] + pieces.last()
    }
}

proof fn lemma_join_pieces_grow(pieces: Seq<Seq<char>>, sep: char, c: char)
    requires
        pieces.len() >= 1,
    ensures
        join_pieces(pieces.update(pieces.len() - 1, pieces.last().push(c)), sep)
            == join_pieces(pieces, sep).push(c),
{
    let q = pieces.update(pieces.len() - 1, pieces.last().push(c));
    if pieces.len() > 1 {
        assert(q.drop_last() =~= pieces.drop_last());
    }
    assert(join_pieces(q, sep) =~= join_pieces(pieces, sep).push(c));
}

proof fn lemma_join_pieces_front(pieces: Seq<Seq<char>>, sep: char)
    requires
        pieces.len() >= 2,
    ensures
        join_pieces(pieces, sep).len() >= pieces[0].len() + 1 + pieces[1].len(),
        join_pieces(pieces, sep).subrange(0, (pieces[0].len() + 1 + pieces[1].len()) as int)
            == pieces[0] + seq![sep] + pieces[1],
        pieces.len() > 2 ==> join_pieces(pieces, sep).len() > pieces[0].len() + 1 + pieces[1].len()
            && join_pieces(pieces, sep)[(pieces[0].len() + 1 + pieces[1].len()) as int] == sep,
    decreases pieces.len(),
{
    let init = pieces.drop_last();
    let j = join_pieces(pieces, sep);
    let n: int = (pieces[0].len() + 1 + pieces[1].len()) as int;
    if pieces.len() == 2 {
        assert(init.len() == 1);
        assert(j =~= pieces[0] + seq![sep] + pieces[1]);
        assert(j.subrange(0, n) =~= pieces[0] + seq![sep] + pieces[1]);
    } else {
        lemma_join_pieces_front(init, sep);
        assert(init[0] == pieces[0] && init[1] == pieces[1]);
        let ji = join_pieces(init, sep);
        assert(j == ji + seq![sep] + pieces.last());
        assert(j.subrange(0, n) =~= ji.subrange(0, n));
        if init.len() == 2 {
            assert(init.drop_last().len() == 1);
            assert(join_pieces(init.drop_last(), sep) == init[0]);
            assert(init.last() == pieces[1]);
            assert(ji =~= pieces[0] + seq![sep] + pieces[1]);
            assert(j[n] == sep);
        } else {
            assert(j[n] == ji[n]);
        }
    }
}

/// Splitting loses nothing and keeps no separator: no piece holds `sep`,
/// and the pieces joined with `sep` between them give `s` back.
pub proof fn lemma_split_on_join(s: Seq<char>, sep: char)
    ensures
        split_on(s, sep).len() >= 1,
        join_pieces(split_on(s, sep), sep) == s,
        forall|i: int| 0 <= i < split_on(s, sep).len() ==> !(#[trigger] split_on(s, sep)[i]).contains(sep),
    decreases s.len(),
{
    if s.len() == 0 {
        assert(join_pieces(split_on(s, sep), sep) =~= s);
        assert(split_on(s, sep)[0] =~= Seq::<char>::empty());
    } else {
        let init = s.drop_last();
        lemma_split_on_join(init, sep);
        let p = split_on(init, sep);
        let r = split_on(s, sep);
        if s.last() == sep {
            assert(r.drop_last() =~= p);
            assert(join_pieces(r, sep) =~= s);
            assert forall|i: int| 0 <= i < r.len() implies !(#[trigger] r[i]).contains(sep) by {
                if i < p.len() {
                    assert(r[i] == p[i]);
                } else {
                    assert(r[i] =~= Seq::<char>::empty());
                }
            }
        } else {
            lemma_join_pieces_grow(p, sep, s.last());
            assert(init.push(s.last()) =~= s);
            assert forall|i: int| 0 <= i < r.len() implies !(#[trigger] r[i]).contains(sep) by {
                if i < p.len() - 1 {
                    assert(r[i] == p[i]);
                } else {
                    let l = p.last().push(s.last());
                    assert(r[i] == l);
                    if l.contains(sep) {
                        let k = choose|k: int| 0 <= k < l.len() && l[k] == sep;
                        if k < l.len() - 1 {
                            assert(p.last()[k] == sep);
                            assert(p[p.len() - 1] == p.last());
                        }
                    }
                }
            }
        }
    }
}

/// The entry that an argument gives.  An option (`--key`, `--key=value`)
/// gives the text before its first `=` and the text between the first and
/// the second `=` (empty where there is no `=`); any other argument gives two
/// empty strings.
pub open spec fn arg_entry(a: Seq<char>) -> (Seq<char>, Seq<char>) {
    if a.len() >= 2 && a[0] == '-' && a[1] == '-' {
        let pieces = split_on(a, '=');
        (pieces[0], if pieces.len() > 1 { pieces[1] } else { Seq::empty() })
    } else {
        (Seq::empty(), Seq::empty())
    }
}

/// An option gives a key that starts it and holds no `=`; where an `=`
/// follows the key, the value is what comes after it up to the end or the
/// next `=`, and otherwise the key is the whole option and the value empty.
/// Any other argument gives two empty strings.
pub proof fn lemma_arg_entry(a: Seq<char>)
    ensures
        !(a.len() >= 2 && a[0] == '-' && a[1] == '-') ==> arg_entry(a) == (Seq::<char>::empty(), Seq::<char>::empty()),
        a.len() >= 2 && a[0] == '-' && a[1] == '-' ==> {
            let k = arg_entry(a).0;
            let v = arg_entry(a).1;
            let e: int = (k.len() + 1 + v.len()) as int;
            &&& !k.contains('=')
            &&& !v.contains('=')
            &&& k.len() <= a.len()
            &&& a.subrange(0, k.len() as int) == k
            &&& k.len() == a.len() ==> v.len() == 0
            &&& k.len() < a.len() ==> a[k.len() as int] == '=' && e <= a.len()
                && a.subrange(k.len() + 1int, e) == v && (e == a.len() || a[e] == '=')
        },
{
    if a.len() >= 2 && a[0] == '-' && a[1] == '-' {
        lemma_option_entry(a);
    }
}

/// What the first two of some pieces say of the text they join into.
proof fn lemma_pieces_front(a: Seq<char>, p: Seq<Seq<char>>, k: Seq<char>, v: Seq<char>)
    requires
        p.len() >= 1,
        join_pieces(p, '=') == a,
        forall|i: int| 0 <= i < p.len() ==> !(#[trigger] p[i]).contains('='),
        k == p[0],
        v == (if p.len() > 1 { p[1] } else { Seq::<char>::empty() }),
    ensures
        ({
            let e: int = (k.len() + 1 + v.len()) as int;
            &&& !k.contains('=')
            &&& !v.contains('=')
            &&& k.len() <= a.len()
            &&& a.subrange(0, k.len() as int) == k
            &&& k.len() == a.len() ==> v.len() == 0
            &&& k.len() < a.len() ==> a[k.len() as int] == '=' && e <= a.len()
                && a.subrange(k.len() + 1int, e) == v && (e == a.len() || a[e] == '=')
        }),
{
    assert(!p[0].contains('='));
    if p.len() == 1 {
        assert(a.subrange(0, a.len() as int) =~= a);
    } else {
        assert(!p[1].contains('='));
        lemma_join_pieces_front(p, '=');
        let e: int = (k.len() + 1 + v.len()) as int;
        let front = a.subrange(0, e);
        assert(front == k + seq!['='] + v);
        assert(a.subrange(0, k.len() as int) =~= front.subrange(0, k.len() as int));
        assert(front.subrange(0, k.len() as int) =~= k);
        assert(a[k.len() as int] == front[k.len() as int]);
        assert(a.subrange(k.len() + 1int, e) =~= front.subrange(k.len() + 1int, e));
        assert(front.subrange(k.len() + 1int, e) =~= v);
        if p.len() == 2 {
            assert(p.drop_last().len() == 1);
            assert(join_pieces(p.drop_last(), '=') == p.drop_last()[0]);
            assert(p.drop_last()[0] == k);
            assert(p.last() == v);
            assert(join_pieces(p, '=') =~= k + seq!['='] + v);
        }
    }
}

proof fn lemma_option_entry(a: Seq<char>)
    requires
        a.len() >= 2 && a[0] == '-' && a[1] == '-',
    ensures
        ({
            let k = arg_entry(a).0;
            let v = arg_entry(a).1;
            let e: int = (k.len() + 1 + v.len()) as int;
            &&& !k.contains('=')
            &&& !v.contains('=')
            &&& k.len() <= a.len()
            &&& a.subrange(0, k.len() as int) == k
            &&& k.len() == a.len() ==> v.len() == 0
            &&& k.len() < a.len() ==> a[k.len() as int] == '=' && e <= a.len()
                && a.subrange(k.len() + 1int, e) == v && (e == a.len() || a[e] == '=')
        }),
{
    lemma_split_on_join(a, '=');
    let p = split_on(a, '=');
    lemma_pieces_front(a, p, arg_entry(a).0, arg_entry(a).1);
}

/// The entry that the argument `a` gives (see `arg_entry`).
pub fn parse_arg(a: &String) -> (r: (String, String))
    ensures
        (r.0@, r.1@) == arg_entry(a@),
{
    let mut key = String::new();
    let mut value = String::new();
    let mut separators: usize = 0;
    let mut first: char = ' ';
    let mut second: char = ' ';
    let mut seen: usize = 0;
    proof {
        assert(a@.take(0) =~= Seq::<char>::empty());
    }
    for c in iter: a.as_str().chars()
        invariant
            iter.seq() == a@,
            separators <= 2,
            ({
                let pieces = split_on(a@.take(iter.index() as int), '=');
                &&& pieces.len() >= 1
                &&& key@ == pieces[0]
                &&& separators == (if pieces.len() - 1 < 2 { pieces.len() - 1 } else { 2 })
                &&& value@ == (if pieces.len() > 1 { pieces[1] } else { Seq::<char>::empty() })
            }),
            seen == (if iter.index() < 2 { iter.index() } else { 2 }),
            iter.index() > 0 ==> first == a@[0],
            iter.index() > 1 ==> second == a@[1],
    {
        let ghost i = iter.index() as int;
        let ghost prefix = a@.take(i);
        proof {
            assert(a@.take(i + 1).drop_last() =~= prefix);
            assert(a@.take(i + 1).last() == c);
        }
        if seen == 0 {
            first = c;
            seen = 1;
        } else if seen == 1 {
            second = c;
            seen = 2;
        }
        if c == '=' {
            if separators < 2 {
                separators = separators + 1;
            }
        } else if separators == 0 {
            push_char(&mut key, c);
        } else if separators == 1 {
            push_char(&mut value, c);
        }
    }
    proof {
        assert(a@.take(a@.len() as int) =~= a@);
    }
    if seen == 2 && first == '-' && second == '-' {
        (key, value)
    } else {
        (String::new(), String::new())
    }
}

/// The entry of each argument, in order.
pub fn parse_args(args: &Vec<String>) -> (r: Vec<(String, String)>)
    ensures
        r@.len() == args@.len(),
        forall|i: int| 0 <= i < args@.len() ==> (#[trigger] r@[i].0@, r@[i].1@) == arg_entry(args@[i]@),
{
    let mut entries: Vec<(String, String)> = Vec::new();
    let n = args.len();
    let mut i: usize = 0;
    while i < n
        invariant
            i <= n,
            n == args@.len(),
            entries@.len() == i,
            forall|k: int| 0 <= k < i ==> (#[trigger] entries@[k].0@, entries@[k].1@) == arg_entry(args@[k]@),
        decreases n - i,
    {
        entries.push(parse_arg(&args[i]));
        i = i + 1;
    }
    entries
}

} // verus!
