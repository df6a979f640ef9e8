use vstd::prelude::*;
use crate::text::push_char;

verus! {

/// The segments of `s` between `/` separators, in order (empty ones included).
pub open spec fn spec_segments(s: Seq<char>) -> Seq<Seq<char>>
    decreases s.len(),
{
    if s.len() == 0 {
        seq![seq![]]
    } else {
        let before = spec_segments(s.drop_last());
        if s.last() == '/' {
            before.push(seq![])
        } else {
            before.update(before.len() - 1, before.last().push(s.last()))
        }
    }
}

/// The normal components among `segs`: non-empty and not `.`.
pub open spec fn spec_normal(segs: Seq<Seq<char>>) -> Seq<Seq<char>>
    decreases segs.len(),
{
    if segs.len() == 0 {
        seq![]
    } else {
        let before = spec_normal(segs.drop_last());
        if segs.last().len() == 0 || segs.last() == seq!['.'] { before } else { before.push(segs.last()) }
    }
}

/// The components of a `/`-separated path, as `std::path::Path::iter` yields
/// them: `/` first for an absolute path, `.` first for a relative path that
/// starts with `./`, then the non-empty segments other than `.`.
pub open spec fn spec_components(s: Seq<char>) -> Seq<Seq<char>> {
    let segs = spec_segments(s);
    let rest = spec_normal(segs.drop_first());
    if s.len() > 0 && s[0] == '/' {
        seq![seq!['/']] + rest
    } else if segs[0] == seq!['.'] {
        seq![seq!['.']] + rest
    } else if segs[0].len() == 0 {
        rest
    } else {
        seq![segs[0]] + rest
    }
}

proof fn lemma_segments_nonempty(s: Seq<char>)
    ensures
        spec_segments(s).len() >= 1,
    decreases s.len(),
{
    if s.len() > 0 { lemma_segments_nonempty(s.drop_last()); }
}

/// The segments of `s` between `/` separators.
pub fn segments(s: &str) -> (r: Vec<String>)
    ensures
        r.deep_view() == spec_segments(s@),
{
    broadcast use vstd::string::group_string_axioms;
    let mut done: Vec<String> = Vec::new();
    let mut current = String::new();
    for c in it: s.chars()
        invariant
            it.seq() == s@,
            done.deep_view().push(current@) == spec_segments(s@.subrange(0, it.index() as int)),
    {
        let ghost i = it.index() as int;
        proof {
            assert(s@.subrange(0, i + 1).drop_last() =~= s@.subrange(0, i));
            assert(s@.subrange(0, i + 1).last() == c);
        }
        let ghost prev = done.deep_view().push(current@);
        if c == '/' {
            let finished = current;
            current = String::new();
            let ghost d = done.deep_view();
            done.push(finished);
            proof {
                assert(done.deep_view() =~= d.push(finished@));
                assert(done.deep_view().push(current@) =~= prev.push(seq![]));
            }
        } else {
            push_char(&mut current, c);
            proof { assert(done.deep_view().push(current@) =~= prev.update(prev.len() - 1, prev.last().push(c))); }
        }
    }
    proof { assert(s@.subrange(0, s@.len() as int) =~= s@); }
    let ghost d = done.deep_view();
    done.push(current);
    proof { assert(done.deep_view() =~= d.push(current@)); }
    done
}

} // verus!

verus! {

/// The components of a `/`-separated path (see [`spec_components`]).
pub fn components(s: &str) -> (r: Vec<String>)
    ensures
        r.deep_view() == spec_components(s@),
{
    let segs = segments(s);
    proof { lemma_segments_nonempty(s@); reveal_strlit("."); reveal_strlit("/"); }
    let ghost sv = segs.deep_view();
    let dot = crate::text::owned(".");
    let mut rest: Vec<String> = Vec::new();
    let mut i: usize = 1;
    while i < segs.len()
        invariant
            1 <= i <= segs@.len(),
            sv == segs.deep_view(),
            dot@ == seq!['.'],
            rest.deep_view() == spec_normal(sv.drop_first().subrange(0, i - 1)),
        decreases segs.len() - i,
    {
        proof {
            assert(sv.drop_first().subrange(0, i as int).drop_last() =~= sv.drop_first().subrange(0, i - 1));
            assert(sv.drop_first().subrange(0, i as int).last() == sv[i as int]);
        }
        let seg = &segs[i];
        if seg.as_str().unicode_len() != 0 && *seg != dot {
            let ghost d = rest.deep_view();
            let c = seg.clone();
            rest.push(c);
            proof { assert(rest.deep_view() =~= d.push(c@)); }
        } else {
            proof {
                if seg@.len() != 0 { assert(seg@ == seq!['.']); }
            }
        }
        i = i + 1;
    }
    proof { assert(sv.drop_first().subrange(0, segs@.len() - 1) =~= sv.drop_first()); }
    let first = &segs[0];
    let n = s.unicode_len();
    let absolute = n > 0 && s.get_char(0) == '/';
    let ghost expected_head = if s@.len() > 0 && s@[0] == '/' { seq![seq!['/']] } else if sv[0] == seq!['.'] {
        seq![seq!['.']] } else if sv[0].len() == 0 { Seq::<Seq<char>>::empty() } else { seq![sv[0]] };
    let mut r: Vec<String> = Vec::new();
    if absolute {
        let x = crate::text::owned("/");
        r.push(x);
        proof { assert(x@ =~= seq!['/']); assert(r.deep_view() =~= seq![x@]); }
    } else if *first == dot {
        let x = crate::text::owned(".");
        r.push(x);
        proof { assert(x@ =~= seq!['.']); assert(r.deep_view() =~= seq![x@]); }
    } else if first.as_str().unicode_len() != 0 {
        let x = first.clone();
        r.push(x);
        proof { assert(r.deep_view() =~= seq![x@]); }
    } else {
        proof { assert(r.deep_view() =~= Seq::<Seq<char>>::empty()); }
    }
    let ghost head = r.deep_view();
    assert(head == expected_head);
    r.append(&mut rest);
    proof {
        assert(r.deep_view() =~= head + spec_normal(sv.drop_first()));
        assert(spec_components(s@) =~= expected_head + spec_normal(sv.drop_first()));
    }
    r
}

} // verus!
