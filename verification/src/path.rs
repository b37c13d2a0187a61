//! The names along a path such as `SOFTWARE/Microsoft`, split as a Unix-style path: `/` is
//! the only separator.
use vstd::prelude::*;
use crate::json::names;

verus! {

/// The `/`-separated segments of `s`, empty ones included.
pub open spec fn segments(s: Seq<char>) -> Seq<Seq<char>>
    decreases s.len(),
{
    if s.len() == 0 {
        seq![Seq::empty()]
    } else {
        let prev = segments(s.drop_last());
        if s.last() == '/' {
            prev.push(Seq::empty())
        } else {
            prev.update(prev.len() - 1, prev.last().push(s.last()))
        }
    }
}

/// A segment past the first that names something: not empty and not `.`.
pub open spec fn kept(seg: Seq<char>) -> bool {
    seg.len() > 0 && seg != seq!['.']
}

/// What the first segment contributes: `/` for a path that starts with a separator,
/// nothing for the empty path, and the segment itself otherwise (`.` included).
pub open spec fn head_component(segs: Seq<Seq<char>>) -> Seq<Seq<char>> {
    if segs[0].len() == 0 {
        if segs.len() > 1 {
            seq![seq!['/']]
        } else {
            Seq::empty()
        }
    } else {
        seq![segs[0]]
    }
}

/// The components of a path: the root or the leading `.`, then every segment that is
/// neither empty nor `.`.
pub open spec fn components(s: Seq<char>) -> Seq<Seq<char>> {
    head_component(segments(s)) + segments(s).drop_first().filter(|seg: Seq<char>| kept(seg))
}

pub proof fn lemma_segments_len(s: Seq<char>)
    ensures
        segments(s).len() >= 1,
    decreases s.len(),
{
    if s.len() > 0 {
        lemma_segments_len(s.drop_last());
    }
}

/// A relative path `b` joined onto `a`: `b` itself where `a` is empty, and otherwise `a`, a
/// separator and `b`.
pub open spec fn joined(a: Seq<char>, b: Seq<char>) -> Seq<char> {
    if a.len() == 0 {
        b
    } else {
        a + seq!['/'] + b
    }
}

/// A separator between two strings joins their segment lists.
pub proof fn lemma_segments_join(a: Seq<char>, b: Seq<char>)
    ensures
        segments(a + seq!['/'] + b) == segments(a) + segments(b),
    decreases b.len(),
{
    let s = a + seq!['/'] + b;
    lemma_segments_len(a);
    if b.len() == 0 {
        assert(s =~= a.push('/'));
        assert(s.drop_last() =~= a);
        assert(segments(b) =~= seq![Seq::<char>::empty()]);
        assert(segments(s) =~= segments(a) + segments(b));
    } else {
        let b0 = b.drop_last();
        let c = b.last();
        lemma_segments_join(a, b0);
        lemma_segments_len(b0);
        assert(s.drop_last() =~= a + seq!['/'] + b0);
        assert(s.last() == c);
        let sa = segments(a);
        let sb0 = segments(b0);
        if c == '/' {
            assert(segments(s) =~= sa + sb0.push(Seq::empty()));
        } else {
            let prev = sa + sb0;
            assert(prev.len() - 1 == sa.len() + sb0.len() - 1);
            assert(prev.last() == sb0.last());
            assert(segments(s) =~= sa + sb0.update(sb0.len() - 1, sb0.last().push(c)));
        }
    }
}

/// The components of the empty path: none.
pub proof fn lemma_components_empty()
    ensures
        components(Seq::<char>::empty()) == Seq::<Seq<char>>::empty(),
{
    assert(segments(Seq::<char>::empty()) =~= seq![Seq::<char>::empty()]);
    assert(segments(Seq::<char>::empty()).drop_first() =~= Seq::<Seq<char>>::empty());
    reveal_with_fuel(Seq::filter, 1);
    assert(components(Seq::<char>::empty()) =~= Seq::<Seq<char>>::empty());
}

/// Joining `b` onto `a` gives the components of `a` followed by those of `b`, where `a` is
/// empty, or `b` is empty, or the first segment of `b` names something (it starts neither
/// with a separator nor with `.`).
pub proof fn lemma_components_joined(a: Seq<char>, b: Seq<char>)
    requires
        a.len() == 0 || b.len() == 0 || kept(segments(b)[0]),
    ensures
        components(joined(a, b)) == components(a) + components(b),
{
    if a.len() == 0 {
        lemma_components_empty();
        assert(a =~= Seq::<char>::empty());
        assert(components(a) + components(b) =~= components(b));
    } else {
        lemma_components_join(a, b);
    }
}

/// Joining a nonempty path and a path with a separator gives the components of the first
/// followed by those of the second, where the second is empty or its first segment names
/// something (it starts neither with a separator nor with `.`).
pub proof fn lemma_components_join(a: Seq<char>, b: Seq<char>)
    requires
        a.len() > 0,
        b.len() == 0 || kept(segments(b)[0]),
    ensures
        components(a + seq!['/'] + b) == components(a) + components(b),
{
    let sa = segments(a);
    let sb = segments(b);
    let pred = |seg: Seq<char>| kept(seg);
    lemma_segments_len(a);
    lemma_segments_len(b);
    lemma_segments_join(a, b);
    let s = sa + sb;
    assert(s[0] == sa[0]);
    assert(s.drop_first() =~= sa.drop_first() + sb);
    Seq::filter_distributes_over_add(sa.drop_first(), sb, pred);
    assert(sb =~= seq![sb[0]] + sb.drop_first());
    Seq::filter_distributes_over_add(seq![sb[0]], sb.drop_first(), pred);
    assert(seq![sb[0]].filter(pred) =~= if kept(sb[0]) {
        seq![sb[0]]
    } else {
        Seq::empty()
    }) by {
        reveal_with_fuel(Seq::filter, 2);
        assert(seq![sb[0]].drop_last() =~= Seq::<Seq<char>>::empty());
    }
    if sa[0].len() == 0 {
        assert(sa.len() > 1) by {
            if sa.len() == 1 {
                lemma_single_segment_empty(a);
            }
        }
    }
    if b.len() == 0 {
        assert(sb =~= seq![Seq::<char>::empty()]);
        assert(sb.drop_first() =~= Seq::<Seq<char>>::empty());
        reveal_with_fuel(Seq::filter, 1);
        assert(components(b) =~= Seq::<Seq<char>>::empty());
    }
    assert(components(a + seq!['/'] + b) =~= components(a) + components(b));
}

/// A string without a separator is one segment.
pub proof fn lemma_segments_no_separator(s: Seq<char>)
    requires
        forall|i: int| 0 <= i < s.len() ==> s[i] != '/',
    ensures
        segments(s) == seq![s],
    decreases s.len(),
{
    if s.len() > 0 {
        lemma_segments_no_separator(s.drop_last());
        assert(s.drop_last().push(s.last()) =~= s);
        assert(segments(s) =~= seq![s]);
    } else {
        assert(s =~= Seq::<char>::empty());
    }
}

/// Every name after the first separator that is neither empty nor `.` is a component:
/// appending `/` and such a name `s` to a nonempty path appends `s` to its components,
/// whatever characters `s` holds (`.NETFramework` and `..` included).
pub proof fn lemma_component_appended(a: Seq<char>, s: Seq<char>)
    requires
        a.len() > 0,
        s.len() > 0,
        s != seq!['.'],
        forall|i: int| 0 <= i < s.len() ==> s[i] != '/',
    ensures
        components(a + seq!['/'] + s) == components(a).push(s),
{
    lemma_segments_no_separator(s);
    assert(kept(segments(s)[0]));
    lemma_components_join(a, s);
    assert(segments(s).drop_first() =~= Seq::<Seq<char>>::empty());
    reveal_with_fuel(Seq::filter, 1);
    assert(components(s) =~= seq![s]);
    assert(components(a) + seq![s] =~= components(a).push(s));
}

/// A nonempty name without a separator is a path of that one component.
pub proof fn lemma_single_component(s: Seq<char>)
    requires
        s.len() > 0,
        forall|i: int| 0 <= i < s.len() ==> s[i] != '/',
    ensures
        components(s) == seq![s],
{
    lemma_segments_no_separator(s);
    assert(segments(s).drop_first() =~= Seq::<Seq<char>>::empty());
    reveal_with_fuel(Seq::filter, 1);
    assert(components(s) =~= seq![s]);
}

/// A string with one segment and an empty first segment is empty.
proof fn lemma_single_segment_empty(a: Seq<char>)
    requires
        segments(a).len() == 1,
        segments(a)[0].len() == 0,
    ensures
        a.len() == 0,
{
    if a.len() > 0 {
        lemma_segments_len(a.drop_last());
        if a.last() == '/' {
        } else {
            let prev = segments(a.drop_last());
            assert(segments(a)[segments(a).len() - 1] == prev.last().push(a.last()));
        }
    }
}

/// Appends `c` to `s`.
#[verifier::external_body]
fn push_char(s: &mut String, c: char)
    ensures
        final(s)@ == old(s)@.push(c),
{
    s.push(c);
}

/// The components of `path`, each as a string.
pub fn split_path(path: &str) -> (r: Vec<String>)
    ensures
        names(r@) == components(path@),
{
    let mut done: Vec<String> = Vec::new();
    let mut cur = String::new();
    let mut past_first = false;
    let dot = String::from_str(".");
    proof {
        reveal_strlit(".");
        assert(dot@ =~= seq!['.']);
        assert(path@.take(0) =~= Seq::<char>::empty());
    }
    for c in it: path.chars()
        invariant
            it.seq() == path@,
            dot@ == seq!['.'],
            ({
                let segs = segments(path@.take(it.index() as int));
                &&& cur@ == segs.last()
                &&& past_first == (segs.len() > 1)
                &&& names(done@) == if segs.len() > 1 {
                    head_component(segs) + segs.drop_first().drop_last().filter(|seg: Seq<char>| kept(seg))
                } else {
                    Seq::empty()
                }
            }),
    {
        let ghost i = it.index() as int;
        let ghost pre = path@.take(i);
        let ghost segs = segments(pre);
        proof {
            lemma_segments_len(pre);
            assert(path@.take(i + 1).drop_last() =~= pre);
            assert(path@.take(i + 1).last() == c);
        }
        if c == '/' {
            let ghost new_segs = segs.push(Seq::empty());
            assert(segments(path@.take(i + 1)) == new_segs);
            if !past_first {
                let ghost cur_v = cur@;
                proof {
                    assert(segs.len() == 1);
                    assert(new_segs[0] == cur_v);
                    assert(new_segs.len() == 2);
                }
                let head = if cur.as_str().is_empty() {
                    String::from_str("/")
                } else {
                    cur
                };
                proof {
                    reveal_strlit("/");
                    if cur_v.len() == 0 {
                        assert(head@ =~= seq!['/']);
                    } else {
                        assert(head@ == cur_v);
                    }
                    assert(head_component(new_segs) =~= seq![head@]);
                    assert(new_segs.drop_first().drop_last() =~= Seq::<Seq<char>>::empty());
                    reveal_with_fuel(Seq::filter, 1);
                }
                done.push(head);
                proof {
                    assert(names(done@) =~= head_component(new_segs) + new_segs.drop_first().drop_last().filter(
                        |seg: Seq<char>| kept(seg),
                    ));
                }
            } else {
                let ghost old_done = names(done@);
                proof {
                    assert(new_segs.drop_first().drop_last() =~= segs.drop_first().drop_last().push(
                        segs.last(),
                    ));
                    segs.drop_first().drop_last().lemma_filter_push(
                        segs.last(),
                        |seg: Seq<char>| kept(seg),
                    );
                    assert(head_component(new_segs) == head_component(segs));
                }
                if !cur.as_str().is_empty() && cur != dot {
                    done.push(cur);
                    proof {
                        assert(names(done@) =~= old_done.push(segs.last()));
                    }
                } else {
                    proof {
                        assert(!kept(segs.last()));
                    }
                }
            }
            cur = String::new();
            past_first = true;
        } else {
            proof {
                let new_segs = segments(path@.take(i + 1));
                assert(new_segs == segs.update(segs.len() - 1, segs.last().push(c)));
                if segs.len() > 1 {
                    assert(new_segs.drop_first().drop_last() =~= segs.drop_first().drop_last());
                    assert(new_segs[0] == segs[0]);
                }
            }
            push_char(&mut cur, c);
        }
    }
    let ghost segs = segments(path@);
    proof {
        assert(path@.take(path@.len() as int) =~= path@);
        lemma_segments_len(path@);
    }
    if !past_first {
        if !cur.as_str().is_empty() {
            done.push(cur);
        }
        proof {
            assert(segs.drop_first() =~= Seq::<Seq<char>>::empty());
            reveal_with_fuel(Seq::filter, 1);
            assert(names(done@) =~= components(path@));
        }
    } else {
        let ghost old_done = names(done@);
        proof {
            assert(segs.drop_first() =~= segs.drop_first().drop_last().push(segs.last()));
            segs.drop_first().drop_last().lemma_filter_push(segs.last(), |seg: Seq<char>| kept(seg));
        }
        if !cur.as_str().is_empty() && cur != dot {
            done.push(cur);
            proof {
                assert(names(done@) =~= old_done.push(segs.last()));
            }
        }
        proof {
            assert(names(done@) =~= components(path@));
        }
    }
    done
}

} // verus!
