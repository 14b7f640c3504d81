//! Decomposition of a path string into ordered display segments.
//!
//! A path is modelled as a sequence of characters separated by `/`.  Its
//! canonical form is a pair: whether it is absolute, and the list of its
//! name components with empty, `.` and `..` components dropped.  The
//! decomposition turns a path into segments that carry their trailing
//! separator, so that concatenating a prefix of segments reconstructs a
//! valid path prefix.

use vstd::prelude::*;

verus! {

/// A path is absolute when it starts with the separator.
pub open spec fn is_abs(s: Seq<char>) -> bool {
    s.len() > 0 && s[0] == '/'
}

/// A component is kept when it is neither empty nor `.` nor `..`.
pub open spec fn keep_name(n: Seq<char>) -> bool {
    n.len() > 0 && n != seq!['.'] && n != seq!['.', '.']
}

/// The names contributed by one finished component: one if kept, none otherwise.
pub open spec fn flush_name(cur: Seq<char>) -> Seq<Seq<char>> {
    if keep_name(cur) {
        seq![cur]
    } else {
        Seq::empty()
    }
}

/// Scans the rest of a path, `cur` being the partial component read so far,
/// and yields the kept name components in order.
pub open spec fn scan_names(s: Seq<char>, cur: Seq<char>) -> Seq<Seq<char>>
    decreases s.len(),
{
    if s.len() == 0 {
        flush_name(cur)
    } else if s[0] == '/' {
        flush_name(cur) + scan_names(s.skip(1), Seq::empty())
    } else {
        scan_names(s.skip(1), cur.push(s[0]))
    }
}

/// The kept name components of a path, in order.
pub open spec fn path_names(s: Seq<char>) -> Seq<Seq<char>> {
    scan_names(s, Seq::empty())
}

/// Appends the separator to every name but the last.
pub open spec fn with_seps(names: Seq<Seq<char>>) -> Seq<Seq<char>>
    decreases names.len(),
{
    if names.len() == 0 {
        Seq::empty()
    } else if names.len() == 1 {
        seq![names[0]]
    } else {
        seq![names[0].push('/')] + with_seps(names.skip(1))
    }
}

/// The segments a path decomposes into: a root segment when the path is
/// absolute, then the kept names with their separators; a lone `.` segment
/// when nothing else remains.
pub open spec fn segments_of(s: Seq<char>) -> Seq<Seq<char>> {
    let names = path_names(s);
    if is_abs(s) {
        seq![seq!['/']] + with_seps(names)
    } else if names.len() == 0 {
        seq![seq!['.']]
    } else {
        with_seps(names)
    }
}

/// There are exactly as many separator-carrying segments as names.
pub proof fn lemma_with_seps_len(names: Seq<Seq<char>>)
    ensures
        with_seps(names).len() == names.len(),
    decreases names.len(),
{
    if names.len() >= 2 {
        lemma_with_seps_len(names.skip(1));
    }
}

/// Concatenation of a sequence of segments into one string.
pub open spec fn concat_all(parts: Seq<Seq<char>>) -> Seq<char>
    decreases parts.len(),
{
    if parts.len() == 0 {
        Seq::empty()
    } else {
        parts[0] + concat_all(parts.skip(1))
    }
}

/// Concatenation distributes over appending one segment at the back.
pub proof fn lemma_concat_all_push(parts: Seq<Seq<char>>, x: Seq<char>)
    ensures
        concat_all(parts.push(x)) == concat_all(parts) + x,
    decreases parts.len(),
{
    if parts.len() == 0 {
        assert(parts.push(x)[0] == x);
        assert(parts.push(x).skip(1) =~= Seq::<Seq<char>>::empty());
        assert(concat_all(Seq::<Seq<char>>::empty()) == Seq::<char>::empty());
        assert(concat_all(parts.push(x)) == x + Seq::<char>::empty());
        assert(concat_all(parts.push(x)) =~= concat_all(parts) + x);
    } else {
        assert(parts.push(x).skip(1) =~= parts.skip(1).push(x));
        lemma_concat_all_push(parts.skip(1), x);
        assert(concat_all(parts.push(x)) =~= concat_all(parts) + x);
    }
}

/// A name that the scan can produce: kept, and free of separators.
pub open spec fn valid_name(n: Seq<char>) -> bool {
    keep_name(n) && forall|i: int| 0 <= i < n.len() ==> n[i] != '/'
}

/// Every name the scan yields is valid, provided the partial component
/// read so far holds no separator.
proof fn lemma_scan_names_valid(s: Seq<char>, cur: Seq<char>)
    requires
        forall|i: int| 0 <= i < cur.len() ==> cur[i] != '/',
    ensures
        forall|k: int|
            0 <= k < scan_names(s, cur).len() ==> valid_name(#[trigger] scan_names(s, cur)[k]),
    decreases s.len(),
{
    if s.len() == 0 {
        assert forall|k: int| 0 <= k < scan_names(s, cur).len() implies valid_name(
            #[trigger] scan_names(s, cur)[k],
        ) by {
            assert(keep_name(cur));
            assert(scan_names(s, cur)[k] == cur);
        }
    } else if s[0] == '/' {
        lemma_scan_names_valid(s.skip(1), Seq::empty());
        assert forall|k: int| 0 <= k < scan_names(s, cur).len() implies valid_name(
            #[trigger] scan_names(s, cur)[k],
        ) by {
            if k < flush_name(cur).len() {
                assert(scan_names(s, cur)[k] == cur);
            } else {
                assert(scan_names(s, cur)[k] == scan_names(s.skip(1), Seq::empty())[k
                    - flush_name(cur).len()]);
            }
        }
    } else {
        assert(forall|i: int| 0 <= i < cur.push(s[0]).len() ==> cur.push(s[0])[i] != '/');
        lemma_scan_names_valid(s.skip(1), cur.push(s[0]));
        assert(scan_names(s, cur) == scan_names(s.skip(1), cur.push(s[0])));
    }
}

/// Scanning a separator-free stretch just extends the partial component.
proof fn lemma_scan_no_sep_prefix(name: Seq<char>, s: Seq<char>, cur: Seq<char>)
    requires
        forall|i: int| 0 <= i < name.len() ==> name[i] != '/',
    ensures
        scan_names(name + s, cur) == scan_names(s, cur + name),
    decreases name.len(),
{
    if name.len() == 0 {
        assert(name + s =~= s);
        assert(cur + name =~= cur);
    } else {
        let c = name[0];
        assert((name + s).len() > 0 && (name + s)[0] == c && c != '/');
        assert((name + s).skip(1) =~= name.skip(1) + s);
        assert(cur.push(c) + name.skip(1) =~= cur + name);
        lemma_scan_no_sep_prefix(name.skip(1), s, cur.push(c));
    }
}

/// Scanning the joined form of a list of valid names yields that list
/// back.
proof fn lemma_scan_join(names: Seq<Seq<char>>)
    requires
        forall|k: int| 0 <= k < names.len() ==> valid_name(#[trigger] names[k]),
    ensures
        scan_names(concat_all(with_seps(names)), Seq::empty()) == names,
    decreases names.len(),
{
    if names.len() == 0 {
        assert(concat_all(with_seps(names)) == Seq::<char>::empty());
        assert(scan_names(Seq::empty(), Seq::empty()) =~= names);
    } else if names.len() == 1 {
        let n0 = names[0];
        assert(with_seps(names) =~= seq![n0]);
        assert(seq![n0].skip(1) =~= Seq::<Seq<char>>::empty());
        assert(concat_all(Seq::<Seq<char>>::empty()) == Seq::<char>::empty());
        assert(concat_all(with_seps(names)) == n0 + Seq::<char>::empty());
        lemma_scan_no_sep_prefix(n0, Seq::empty(), Seq::empty());
        assert(n0 + Seq::<char>::empty() =~= n0 + Seq::empty());
        assert(Seq::<char>::empty() + n0 =~= n0);
        assert(scan_names(Seq::<char>::empty(), n0) == flush_name(n0));
        assert(flush_name(n0) =~= names);
    } else {
        let n0 = names[0];
        let rest = names.skip(1);
        let tail = concat_all(with_seps(rest));
        assert(with_seps(names) == seq![n0.push('/')] + with_seps(rest));
        assert((seq![n0.push('/')] + with_seps(rest))[0] == n0.push('/'));
        assert((seq![n0.push('/')] + with_seps(rest)).skip(1) =~= with_seps(rest));
        assert(concat_all(with_seps(names)) == n0.push('/') + tail);
        assert(n0.push('/') + tail =~= n0 + (seq!['/'] + tail));
        lemma_scan_no_sep_prefix(n0, seq!['/'] + tail, Seq::empty());
        assert(Seq::<char>::empty() + n0 =~= n0);
        assert((seq!['/'] + tail)[0] == '/');
        assert((seq!['/'] + tail).skip(1) =~= tail);
        assert(scan_names(seq!['/'] + tail, n0) == flush_name(n0) + scan_names(
            tail,
            Seq::empty(),
        ));
        assert(forall|k: int| 0 <= k < rest.len() ==> valid_name(#[trigger] rest[k]));
        lemma_scan_join(rest);
        assert(flush_name(n0) + rest =~= names);
    }
}

/// Law: concatenating all segments of a decomposed path gives a string
/// that, re-parsed, denotes the same path — it is absolute exactly when
/// the original was, and it has the same kept name components.
pub proof fn lemma_decompose_round_trip(p: Seq<char>)
    ensures
        is_abs(concat_all(segments_of(p))) == is_abs(p),
        path_names(concat_all(segments_of(p))) == path_names(p),
{
    lemma_scan_names_valid(p, Seq::empty());
    let names = path_names(p);
    assert(forall|k: int| 0 <= k < names.len() ==> valid_name(#[trigger] names[k]));
    let joined = concat_all(with_seps(names));
    lemma_scan_join(names);
    if is_abs(p) {
        let segs = segments_of(p);
        assert(segs[0] == seq!['/']);
        assert(segs.skip(1) =~= with_seps(names));
        assert(concat_all(segs) == seq!['/'] + joined);
        assert((seq!['/'] + joined)[0] == '/');
        assert(is_abs(concat_all(segs)));
        assert((seq!['/'] + joined).skip(1) =~= joined);
        assert(scan_names(seq!['/'] + joined, Seq::empty()) == flush_name(Seq::empty())
            + scan_names(joined, Seq::empty()));
        assert(flush_name(Seq::empty()) + names =~= names);
    } else if names.len() == 0 {
        let segs = segments_of(p);
        assert(segs[0] == seq!['.']);
        assert(segs.skip(1) =~= Seq::<Seq<char>>::empty());
        assert(concat_all(Seq::<Seq<char>>::empty()) == Seq::<char>::empty());
        assert(concat_all(segs) == seq!['.'] + Seq::<char>::empty());
        assert(concat_all(segs) =~= seq!['.']);
        assert(!is_abs(seq!['.']));
        assert(seq!['.'].skip(1) =~= Seq::<char>::empty());
        assert(scan_names(seq!['.'], Seq::empty()) == scan_names(
            Seq::<char>::empty(),
            Seq::empty().push('.'),
        ));
        assert(Seq::empty().push('.') =~= seq!['.']);
        assert(!keep_name(seq!['.']));
        assert(path_names(concat_all(segs)) =~= names);
    } else {
        let segs = segments_of(p);
        assert(segs == with_seps(names));
        lemma_with_seps_len(names);
        let n0 = names[0];
        assert(valid_name(n0));
        if names.len() == 1 {
            assert(segs =~= seq![n0]);
            assert(seq![n0].skip(1) =~= Seq::<Seq<char>>::empty());
            assert(concat_all(segs) == n0 + concat_all(Seq::<Seq<char>>::empty()));
            assert(concat_all(segs) =~= n0);
            assert(n0.len() > 0 && n0[0] != '/');
        } else {
            assert(segs[0] == n0.push('/'));
            assert(concat_all(segs) == n0.push('/') + concat_all(segs.skip(1)));
            assert(concat_all(segs).len() > 0 && concat_all(segs)[0] == n0[0]);
            assert(n0[0] != '/');
        }
        assert(!is_abs(concat_all(segs)));
        assert(concat_all(segs) == joined);
    }
}

/// Appends to `names` the name ending at `end` (exclusive) and starting at
/// `start`, unless that component is dropped.
fn push_name_if_kept(names: &mut Vec<String>, path: &str, start: usize, end: usize)
    requires
        start <= end <= path@.len(),
    ensures
        final(names).deep_view() == old(names).deep_view() + flush_name(
            path@.subrange(start as int, end as int),
        ),
{
    let ghost cur = path@.subrange(start as int, end as int);
    let len: usize = end - start;
    if len == 0 {
        assert(names.deep_view() =~= names.deep_view() + flush_name(cur));
        return ;
    }
    if len == 1 && path.get_char(start) == '.' {
        proof {
            assert(cur =~= seq!['.']);
            assert(names.deep_view() =~= names.deep_view() + flush_name(cur));
        }
        return ;
    }
    if len == 2 && path.get_char(start) == '.' && path.get_char(start + 1) == '.' {
        proof {
            assert(cur =~= seq!['.', '.']);
            assert(names.deep_view() =~= names.deep_view() + flush_name(cur));
        }
        return ;
    }
    proof {
        if cur == seq!['.'] {
            assert(cur.len() == 1 && cur[0] == '.');
        }
        if cur == seq!['.', '.'] {
            assert(cur.len() == 2 && cur[0] == '.' && cur[1] == '.');
        }
        assert(keep_name(cur));
    }
    let name = path.substring_char(start, end);
    let ghost old_names = names.deep_view();
    names.push(String::from_str(name));
    proof {
        assert(names.deep_view() =~= old_names + flush_name(cur));
    }
}

/// Splits a path into display segments, each carrying its trailing
/// separator, so that joining a prefix of them reconstructs a path prefix.
///
/// A root component becomes a segment holding only the separator; every
/// kept name becomes a segment, with the separator appended unless it is
/// the last; `.` and `..` components are dropped; when nothing remains the
/// result is the single segment `.`.
#[verifier::loop_isolation(false)]
#[verifier::rlimit(30)]
pub fn split_path(path: &str) -> (parts: Vec<String>)
    ensures
        parts.deep_view() == segments_of(path@),
        parts@.len() >= 1,
{
    let n: usize = path.unicode_len();
    let mut names: Vec<String> = Vec::new();
    let mut start: usize = 0;
    let mut i: usize = 0;
    proof {
        assert(path@.skip(0) =~= path@);
        assert(path@.subrange(0, 0) =~= Seq::<char>::empty());
        assert(names.deep_view() =~= Seq::<Seq<char>>::empty());
    }
    while i < n
        invariant
            n == path@.len(),
            start <= i <= n,
            names.deep_view() + scan_names(path@.skip(i as int), path@.subrange(start as int, i as int))
                == path_names(path@),
        decreases n - i,
    {
        let ghost rest = path@.skip(i as int);
        let ghost cur = path@.subrange(start as int, i as int);
        assert(rest.len() > 0 && rest[0] == path@[i as int]);
        let c = path.get_char(i);
        if c == '/' {
            proof {
                assert(rest.skip(1) =~= path@.skip(i + 1));
                assert(scan_names(rest, cur) == flush_name(cur) + scan_names(
                    path@.skip(i + 1),
                    Seq::empty(),
                ));
            }
            push_name_if_kept(&mut names, path, start, i);
            start = i + 1;
            proof {
                assert(path@.subrange(start as int, start as int) =~= Seq::<char>::empty());
                assert(names.deep_view() + scan_names(
                    path@.skip(start as int),
                    path@.subrange(start as int, start as int),
                ) =~= path_names(path@));
            }
        } else {
            proof {
                assert(rest.skip(1) =~= path@.skip(i + 1));
                assert(cur.push(c) =~= path@.subrange(start as int, i + 1));
                assert(scan_names(rest, cur) == scan_names(
                    path@.skip(i + 1),
                    path@.subrange(start as int, i + 1),
                ));
            }
        }
        i += 1;
    }
    proof {
        assert(path@.skip(n as int) =~= Seq::<char>::empty());
    }
    push_name_if_kept(&mut names, path, start, n);
    proof {
        assert(names.deep_view() =~= path_names(path@));
    }
    let ghost nv = names.deep_view();

    let mut parts: Vec<String> = Vec::new();
    let abs = n > 0 && path.get_char(0) == '/';
    let ghost head: Seq<Seq<char>> = if abs {
        seq![seq!['/']]
    } else {
        Seq::empty()
    };
    if abs {
        let root = String::from_str("/");
        proof {
            reveal_strlit("/");
            assert(root@ =~= seq!['/']);
        }
        parts.push(root);
    }
    proof {
        assert(nv.skip(0) =~= nv);
        assert(parts.deep_view() =~= head);
    }
    let k: usize = names.len();
    let mut j: usize = 0;
    while j < k
        invariant
            k == names@.len(),
            j <= k,
            nv == names.deep_view(),
            parts.deep_view() + with_seps(nv.skip(j as int)) == head + with_seps(nv),
        decreases k - j,
    {
        let ghost tail = nv.skip(j as int);
        assert(tail.len() == k - j && tail[0] == nv[j as int]);
        let ghost old_parts = parts.deep_view();
        if j + 1 < k {
            let seg = names[j].clone().concat("/");
            proof {
                reveal_strlit("/");
                assert(seg@ =~= nv[j as int].push('/'));
                assert(tail.skip(1) =~= nv.skip(j + 1));
                assert(with_seps(tail) == seq![nv[j as int].push('/')] + with_seps(nv.skip(j + 1)));
            }
            parts.push(seg);
            proof {
                assert(old_parts.push(nv[j as int].push('/')) + with_seps(nv.skip(j + 1)) =~= old_parts
                    + with_seps(tail));
                assert(parts.deep_view() =~= old_parts.push(nv[j as int].push('/')));
            }
        } else {
            let seg = names[j].clone();
            proof {
                assert(seg@ == nv[j as int]);
                assert(with_seps(tail) =~= seq![nv[j as int]]);
                assert(nv.skip(j + 1) =~= Seq::<Seq<char>>::empty());
            }
            parts.push(seg);
            proof {
                assert(old_parts.push(nv[j as int]) + with_seps(nv.skip(j + 1)) =~= old_parts
                    + with_seps(tail));
                assert(parts.deep_view() =~= old_parts.push(nv[j as int]));
            }
        }
        j += 1;
    }
    proof {
        assert(nv.skip(k as int) =~= Seq::<Seq<char>>::empty());
        assert(parts.deep_view() =~= head + with_seps(nv));
    }
    if parts.len() == 0 {
        let dot = String::from_str(".");
        proof {
            reveal_strlit(".");
            assert(dot@ =~= seq!['.']);
            lemma_with_seps_len(nv);
            assert(parts.deep_view().len() == 0);
            assert(!abs);
            assert(nv.len() == 0);
        }
        parts.push(dot);
        proof {
            assert(parts.deep_view() =~= seq![seq!['.']]);
        }
    }
    proof {
        if abs {
            assert((head + with_seps(nv)).len() >= 1);
        }
        assert(parts.deep_view() == segments_of(path@));
    }
    parts
}

} // verus!
