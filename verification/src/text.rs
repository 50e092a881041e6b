//! Splitting text into lines and into whitespace-separated fields, as
//! `str::lines` and `str::split_whitespace` do.
use vstd::prelude::*;

verus! {

/// The characters with Unicode's `White_Space` property (what `char::is_whitespace` tests).
pub open spec fn is_white_space(c: char) -> bool {
    let u = c as u32;
    ||| 0x9 <= u <= 0xd
    ||| u == 0x20
    ||| u == 0x85
    ||| u == 0xa0
    ||| u == 0x1680
    ||| 0x2000 <= u <= 0x200a
    ||| u == 0x2028
    ||| u == 0x2029
    ||| u == 0x202f
    ||| u == 0x205f
    ||| u == 0x3000
}

/// Whether `c` has Unicode's `White_Space` property.
pub fn white_space(c: char) -> (b: bool)
    ensures
        b == is_white_space(c),
{
    let u = c as u32;
    (0x9 <= u && u <= 0xd) || u == 0x20 || u == 0x85 || u == 0xa0 || u == 0x1680 || (0x2000 <= u
        && u <= 0x200a) || u == 0x2028 || u == 0x2029 || u == 0x202f || u == 0x205f || u == 0x3000
}

/// The maximal runs of non-whitespace characters of `s`, in order.
pub open spec fn ws_fields(s: Seq<char>) -> Seq<Seq<char>>
    decreases s.len(),
{
    if s.len() == 0 {
        seq![]
    } else {
        let prev = ws_fields(s.drop_last());
        let c = s.last();
        if is_white_space(c) {
            prev
        } else if s.len() >= 2 && !is_white_space(s[s.len() - 2]) {
            prev.update(prev.len() - 1, prev.last().push(c))
        } else {
            prev.push(seq![c])
        }
    }
}

/// The pieces of `s` between `'\n'` characters (one more than there are newlines).
pub open spec fn newline_pieces(s: Seq<char>) -> Seq<Seq<char>>
    decreases s.len(),
{
    if s.len() == 0 {
        seq![Seq::<char>::empty()]
    } else {
        let prev = newline_pieces(s.drop_last());
        if s.last() == '\n' {
            prev.push(Seq::<char>::empty())
        } else {
            prev.update(prev.len() - 1, prev.last().push(s.last()))
        }
    }
}

/// `p` without one trailing carriage return.
pub open spec fn strip_cr(p: Seq<char>) -> Seq<char> {
    if p.len() > 0 && p.last() == '\r' {
        p.drop_last()
    } else {
        p
    }
}

/// The lines of `s`: pieces ended by `"\n"` or `"\r\n"` (terminator removed), then a
/// final unterminated piece when it is not empty.
pub open spec fn text_lines(s: Seq<char>) -> Seq<Seq<char>> {
    let p = newline_pieces(s);
    let ended = Seq::new((p.len() - 1) as nat, |i: int| strip_cr(p[i]));
    if p.last().len() == 0 {
        ended
    } else {
        ended.push(p.last())
    }
}

/// The characters of `s`, in order.
pub fn chars_of(s: &str) -> (v: Vec<char>)
    ensures
        v@ == s@,
{
    broadcast use vstd::string::group_string_axioms;

    let mut v: Vec<char> = Vec::new();
    for c in it: s.chars()
        invariant
            v@ == it.seq().take(it.index() as int),
            it.seq() == s@,
    {
        v.push(c);
    }
    v
}

proof fn lemma_take_succ<A>(s: Seq<A>, i: int)
    requires
        0 <= i < s.len(),
    ensures
        s.take(i + 1).drop_last() == s.take(i),
        s.take(i + 1).last() == s[i],
        s.take(i + 1).len() == i + 1,
{
    assert(s.take(i + 1).drop_last() =~= s.take(i));
}

/// The spans `[start, end)` of the whitespace-separated fields of `chars`.
pub fn field_spans(chars: &Vec<char>) -> (spans: Vec<(usize, usize)>)
    ensures
        spans@.len() == ws_fields(chars@).len(),
        forall|k: int|
            0 <= k < spans@.len() ==> {
                &&& spans@[k].0 < spans@[k].1 <= chars@.len()
                &&& chars@.subrange(spans@[k].0 as int, spans@[k].1 as int) == ws_fields(
                    chars@,
                )[k]
            },
{
    let n = chars.len();
    let mut spans: Vec<(usize, usize)> = Vec::new();
    let mut open = false;
    let mut start: usize = 0;
    let mut i: usize = 0;
    while i < n
        invariant
            n == chars@.len(),
            i <= n,
            start <= i,
            open ==> start < i,
            open ==> forall|j: int| start <= j < i ==> !is_white_space(chars@[j]),
            open ==> (start == 0 || is_white_space(chars@[start - 1])),
            !open ==> (i == 0 || is_white_space(chars@[i - 1])),
            ws_fields(chars@.take(i as int)).len() == spans@.len() + (if open {
                1int
            } else {
                0int
            }),
            forall|k: int|
                #![trigger spans@[k]]
                0 <= k < spans@.len() ==> {
                    &&& spans@[k].0 < spans@[k].1 <= i
                    &&& chars@.subrange(spans@[k].0 as int, spans@[k].1 as int) == ws_fields(
                        chars@.take(i as int),
                    )[k]
                },
            open ==> ws_fields(chars@.take(i as int)).last() == chars@.subrange(
                start as int,
                i as int,
            ),
        decreases n - i,
    {
        let c = chars[i];
        proof {
            lemma_take_succ(chars@, i as int);
        }
        let ghost before = ws_fields(chars@.take(i as int));
        let ghost old_spans = spans@;
        if white_space(c) {
            if open {
                spans.push((start, i));
                open = false;
            }
        } else {
            if !open {
                open = true;
                start = i;
            }
        }
        i = i + 1;
        proof {
            let after = ws_fields(chars@.take(i as int));
            if is_white_space(c) {
                assert(after == before);
            } else if start == i - 1 {
                assert(after == before.push(seq![c]));
            }
            assert forall|k: int| 0 <= k < spans@.len() implies {
                &&& spans@[k].0 < spans@[k].1 <= i
                &&& chars@.subrange(spans@[k].0 as int, spans@[k].1 as int) == after[k]
            } by {
                if k < old_spans.len() {
                    assert(spans@[k] == old_spans[k]);
                } else {
                    assert(before[k] == before.last());
                }
                if !is_white_space(c) {
                    assert(after[k] == before[k]);
                }
            }
            if !is_white_space(c) && start < i - 1 {
                assert(after == before.update(
                    before.len() - 1,
                    before.last().push(c),
                ));
                assert(chars@.subrange(start as int, i as int) =~= chars@.subrange(
                    start as int,
                    i - 1,
                ).push(c));
            }
            if !is_white_space(c) && start == i - 1 {
                assert(chars@.subrange(start as int, i as int) =~= seq![c]);
            }
        }
    }
    if open {
        spans.push((start, n));
    }
    assert(chars@.take(n as int) =~= chars@);
    spans
}

/// The spans `[start, end)` of the lines of `chars`, as `text_lines` gives them.
pub fn line_spans(chars: &Vec<char>) -> (spans: Vec<(usize, usize)>)
    ensures
        spans@.len() == text_lines(chars@).len(),
        forall|k: int|
            #![trigger spans@[k]]
            0 <= k < spans@.len() ==> {
                &&& spans@[k].0 <= spans@[k].1 <= chars@.len()
                &&& chars@.subrange(spans@[k].0 as int, spans@[k].1 as int) == text_lines(
                    chars@,
                )[k]
            },
{
    let n = chars.len();
    let mut spans: Vec<(usize, usize)> = Vec::new();
    let mut start: usize = 0;
    let mut i: usize = 0;
    while i < n
        invariant
            n == chars@.len(),
            start <= i <= n,
            newline_pieces(chars@.take(i as int)).len() == spans@.len() + 1,
            newline_pieces(chars@.take(i as int)).last() == chars@.subrange(
                start as int,
                i as int,
            ),
            forall|k: int|
                #![trigger spans@[k]]
                0 <= k < spans@.len() ==> {
                    &&& spans@[k].0 <= spans@[k].1 <= i
                    &&& chars@.subrange(spans@[k].0 as int, spans@[k].1 as int) == strip_cr(
                        newline_pieces(chars@.take(i as int))[k],
                    )
                },
        decreases n - i,
    {
        let c = chars[i];
        proof {
            lemma_take_succ(chars@, i as int);
        }
        let ghost before = newline_pieces(chars@.take(i as int));
        let ghost old_spans = spans@;
        let ghost old_start = start;
        if c == '\n' {
            let end = if i > start && chars[i - 1] == '\r' {
                i - 1
            } else {
                i
            };
            proof {
                let cur = chars@.subrange(start as int, i as int);
                assert(chars@.subrange(start as int, end as int) =~= strip_cr(cur));
            }
            spans.push((start, end));
            start = i + 1;
        }
        i = i + 1;
        proof {
            let after = newline_pieces(chars@.take(i as int));
            if c == '\n' {
                assert(after == before.push(Seq::<char>::empty()));
                assert(chars@.subrange(start as int, i as int) =~= Seq::<char>::empty());
            } else {
                assert(after == before.update(before.len() - 1, before.last().push(c)));
                assert(chars@.subrange(start as int, i as int) =~= chars@.subrange(
                    start as int,
                    i - 1,
                ).push(c));
            }
            assert forall|k: int| 0 <= k < spans@.len() implies {
                &&& spans@[k].0 <= spans@[k].1 <= i
                &&& chars@.subrange(spans@[k].0 as int, spans@[k].1 as int) == strip_cr(after[k])
            } by {
                if k < old_spans.len() {
                    assert(old_spans[k].0 <= old_spans[k].1 <= i - 1);
                    assert(spans@[k] == old_spans[k]);
                    assert(after[k] == before[k]);
                } else {
                    assert(after[k] == before.last());
                }
            }
        }
    }
    let ghost p = newline_pieces(chars@);
    assert(chars@.take(n as int) =~= chars@);
    if start < n {
        spans.push((start, n));
    }
    proof {
        let lines = text_lines(chars@);
        assert forall|k: int| #![trigger spans@[k]] 0 <= k < spans@.len() implies {
            &&& spans@[k].0 <= spans@[k].1 <= chars@.len()
            &&& chars@.subrange(spans@[k].0 as int, spans@[k].1 as int) == lines[k]
        } by {
            if k < p.len() - 1 {
                assert(lines[k] == strip_cr(p[k]));
            } else {
                assert(lines[k] == p.last());
            }
        }
    }
    spans
}

} // verus!
