//! The key under which a file path is tracked: two spellings of one path
//! (repeated or trailing slashes, `.` segments past the start) share a key,
//! as they share their components.

use vstd::prelude::*;
use crate::text;

verus! {

/// The pieces of `p` between slashes, empty pieces included.
pub open spec fn segments(p: Seq<char>) -> Seq<Seq<char>>
    decreases p.len(),
{
    if p.len() == 0 {
        seq![Seq::empty()]
    } else {
        let s = segments(p.drop_last());
        if p.last() == '/' {
            s.push(Seq::empty())
        } else {
            s.update(s.len() - 1, s.last().push(p.last()))
        }
    }
}

/// A path always has at least one piece.
pub proof fn lemma_segments_len(p: Seq<char>)
    ensures
        segments(p).len() >= 1,
    decreases p.len(),
{
    if p.len() > 0 {
        lemma_segments_len(p.drop_last());
    }
}

/// The first piece of a path that does not start with a slash begins the
/// path; that of a path that does is empty.
pub proof fn lemma_segments_first(p: Seq<char>)
    ensures
        p.len() > 0 && p[0] == '/' ==> segments(p).len() >= 2 && segments(p)[0] == Seq::<char>::empty(),
        p.len() > 0 && p[0] != '/' ==> segments(p)[0].len() > 0 && segments(p)[0][0] == p[0],
        p.len() == 0 ==> segments(p)[0] == Seq::<char>::empty(),
    decreases p.len(),
{
    lemma_segments_len(p);
    if p.len() > 1 {
        let q = p.drop_last();
        lemma_segments_first(q);
        lemma_segments_len(q);
        assert(q[0] == p[0]);
    } else if p.len() == 1 {
        lemma_segments_len(p.drop_last());
        assert(p.drop_last() =~= Seq::<char>::empty());
        assert(p.last() == p[0]);
    }
}

/// A piece that names a component: not empty and not `.`.
pub open spec fn is_named(seg: Seq<char>) -> bool {
    seg.len() > 0 && seg != seq!['.']
}

/// The pieces of `segs` that name a component, in order.
pub open spec fn named(segs: Seq<Seq<char>>) -> Seq<Seq<char>>
    decreases segs.len(),
{
    if segs.len() == 0 {
        Seq::empty()
    } else if is_named(segs.last()) {
        named(segs.drop_last()).push(segs.last())
    } else {
        named(segs.drop_last())
    }
}

/// The key of `p`: its components written out with single slashes. A path
/// that starts with a slash keeps it; one that starts with `.` keeps that;
/// empty pieces and other `.` pieces go.
pub open spec fn path_key(p: Seq<char>) -> Seq<char> {
    let segs = segments(p);
    let rest = named(segs.drop_first());
    if p.len() > 0 && p[0] == '/' {
        seq!['/'] + text::join(rest, seq!['/'])
    } else if segs[0] == seq!['.'] {
        text::join(seq![seq!['.']] + rest, seq!['/'])
    } else {
        text::join(named(segs), seq!['/'])
    }
}

/// The pieces of `p`.
fn split_segments(p: &[char]) -> (segs: Vec<Vec<char>>)
    ensures
        segs@.map_values(|s: Vec<char>| s@) == segments(p@),
{
    let mut segs: Vec<Vec<char>> = Vec::new();
    segs.push(Vec::new());
    let mut i: usize = 0;
    assert(p@.take(0) =~= Seq::<char>::empty());
    assert(segs@.map_values(|s: Vec<char>| s@) =~= segments(p@.take(0)));
    while i < p.len()
        invariant
            i <= p@.len(),
            segs@.map_values(|s: Vec<char>| s@) == segments(p@.take(i as int)),
            segs@.len() >= 1,
        decreases p@.len() - i,
    {
        let ghost before = segs@.map_values(|s: Vec<char>| s@);
        let c = p[i];
        assert(p@.take(i + 1).drop_last() =~= p@.take(i as int));
        assert(p@.take(i + 1).last() == c);
        if c == '/' {
            segs.push(Vec::new());
            assert(segs@.map_values(|s: Vec<char>| s@) =~= before.push(Seq::empty()));
        } else {
            let mut last = match segs.pop() {
                Some(l) => l,
                None => Vec::new(),
            };
            last.push(c);
            segs.push(last);
            assert(segs@.map_values(|s: Vec<char>| s@) =~= before.update(
                before.len() - 1,
                before.last().push(c),
            ));
        }
        i = i + 1;
    }
    assert(p@.take(p@.len() as int) =~= p@);
    segs
}

/// Whether a piece names a component.
fn names_component(seg: &Vec<char>) -> (b: bool)
    ensures
        b == is_named(seg@),
{
    if seg.len() == 0 {
        return false;
    }
    if seg.len() == 1 && seg[0] == '.' {
        assert(seg@ =~= seq!['.']);
        return false;
    }
    if seg.len() == 1 {
        assert(seg@ != seq!['.']) by {
            assert(seg@[0] != seq!['.'][0]);
        }
    }
    true
}

/// Appends the pieces of `segs` from `from` on that name a component.
fn push_named(out: &mut Vec<Vec<char>>, segs: &Vec<Vec<char>>, from: usize)
    requires
        from <= segs@.len(),
    ensures
        final(out)@.map_values(|s: Vec<char>| s@) == old(out)@.map_values(|s: Vec<char>| s@)
            + named(segs@.map_values(|s: Vec<char>| s@).subrange(from as int, segs@.len() as int)),
{
    let ghost sv = segs@.map_values(|s: Vec<char>| s@);
    let ghost start = out@.map_values(|s: Vec<char>| s@);
    let mut i: usize = from;
    assert(sv.subrange(from as int, from as int) =~= Seq::<Seq<char>>::empty());
    assert(start + named(Seq::empty()) =~= start);
    while i < segs.len()
        invariant
            from <= i <= segs@.len(),
            sv == segs@.map_values(|s: Vec<char>| s@),
            out@.map_values(|s: Vec<char>| s@) == start + named(sv.subrange(from as int, i as int)),
        decreases segs@.len() - i,
    {
        let ghost before = out@.map_values(|s: Vec<char>| s@);
        let ghost part = sv.subrange(from as int, i + 1);
        assert(part.drop_last() =~= sv.subrange(from as int, i as int));
        assert(part.last() == segs@[i as int]@);
        if names_component(&segs[i]) {
            out.push(segs[i].clone());
            assert(out@.map_values(|s: Vec<char>| s@) =~= before.push(segs@[i as int]@));
        }
        i = i + 1;
    }
}

/// The key of `p`.
pub fn path_key_of(p: &str) -> (k: String)
    ensures
        k@ == path_key(p@),
{
    let cs = text::chars_of(p);
    let segs = split_segments(cs.as_slice());
    let ghost sv = segs@.map_values(|s: Vec<char>| s@);
    proof {
        lemma_segments_len(p@);
        lemma_segments_first(p@);
    }
    let slash: [char; 1] = ['/'];
    assert(slash@ =~= seq!['/']);
    let mut parts: Vec<Vec<char>> = Vec::new();
    assert(parts@.map_values(|s: Vec<char>| s@) =~= Seq::<Seq<char>>::empty());
    let out = if cs.len() > 0 && cs[0] == '/' {
        push_named(&mut parts, &segs, 1);
        assert(sv.subrange(1, sv.len() as int) =~= sv.drop_first());
        let mut o: Vec<char> = Vec::new();
        o.push('/');
        let j = text::join_chars(&parts, &slash);
        text::push_seq(&mut o, j.as_slice());
        o
    } else if segs[0].len() == 1 && segs[0][0] == '.' {
        assert(sv[0] =~= seq!['.']);
        let mut dot: Vec<char> = Vec::new();
        dot.push('.');
        parts.push(dot);
        assert(parts@.map_values(|s: Vec<char>| s@) =~= seq![seq!['.']]);
        push_named(&mut parts, &segs, 1);
        assert(sv.subrange(1, sv.len() as int) =~= sv.drop_first());
        text::join_chars(&parts, &slash)
    } else {
        proof {
            if sv[0].len() == 1 {
                assert(sv[0] != seq!['.']) by {
                    assert(sv[0][0] != seq!['.'][0]);
                }
            }
        }
        push_named(&mut parts, &segs, 0);
        assert(sv.subrange(0, sv.len() as int) =~= sv);
        assert(Seq::<Seq<char>>::empty() + named(sv) =~= named(sv));
        text::join_chars(&parts, &slash)
    };
    text::string_from_chars(out.as_slice())
}

} // verus!
