//! Hook discovery: the entries of a directory whose names carry a hook
//! prefix, in the order of their names.

use vstd::prelude::*;
use crate::message::{lemma_segs_view, segs_view};
use crate::text::{is_prefix, starts_with};

verus! {

broadcast use vstd::seq_lib::to_multiset_build, vstd::seq_lib::to_multiset_insert;

/// The lexicographic order of names, character by character: a prefix comes
/// first.
pub open spec fn lex_le(a: Seq<char>, b: Seq<char>) -> bool {
    is_prefix(a, b) || exists|i: int|
        0 <= i < a.len() && i < b.len() && a.take(i) == b.take(i) && #[trigger] a[i] < #[trigger] b[i]
}

/// Whether names are in lexicographic order.
pub open spec fn sorted(s: Seq<Seq<char>>) -> bool {
    forall|i: int| 0 <= i < s.len() - 1 ==> lex_le(#[trigger] s[i], s[i + 1])
}

/// The names that start with `p`, in their order.
pub open spec fn with_prefix(names: Seq<Seq<char>>, p: Seq<char>) -> Seq<Seq<char>> {
    names.filter(|n: Seq<char>| is_prefix(p, n))
}

/// How two names compare: -1 where `a` comes first, 0 where they are the
/// same, 1 where `b` comes first.
pub fn compare_names(a: &str, b: &str) -> (r: i8)
    ensures
        r == -1 ==> lex_le(a@, b@) && !lex_le(b@, a@),
        r == 0 ==> a@ == b@,
        r == 1 ==> lex_le(b@, a@) && !lex_le(a@, b@),
        r == -1 || r == 0 || r == 1,
{
    let la = a.unicode_len();
    let lb = b.unicode_len();
    let mut i: usize = 0;
    while i < la && i < lb && a.get_char(i) == b.get_char(i)
        invariant
            la == a@.len(),
            lb == b@.len(),
            i <= la,
            i <= lb,
            a@.take(i as int) == b@.take(i as int),
        decreases la - i,
    {
        assert(a@.take(i + 1) =~= a@.take(i as int).push(a@[i as int]));
        assert(b@.take(i + 1) =~= b@.take(i as int).push(b@[i as int]));
        i = i + 1;
    }
    proof {
        assert forall|j: int| 0 <= j < i implies a@[j] == b@[j] by {
            assert(a@.take(i as int)[j] == b@.take(i as int)[j]);
        }
        assert forall|j: int|
            0 <= j < a@.len() && j < b@.len() && a@.take(j) == b@.take(j) && j > i implies a@[i as int]
            == b@[i as int] by {
            assert(a@.take(j)[i as int] == b@.take(j)[i as int]);
        }
    }
    if i < la && i < lb {
        let ca = a.get_char(i);
        let cb = b.get_char(i);
        if ca < cb {
            proof {
                assert(!is_prefix(b@, a@)) by {
                    if is_prefix(b@, a@) {
                        assert(a@.take(lb as int)[i as int] == b@[i as int]);
                    }
                }
            }
            -1
        } else {
            proof {
                assert(!is_prefix(a@, b@)) by {
                    if is_prefix(a@, b@) {
                        assert(b@.take(la as int)[i as int] == a@[i as int]);
                    }
                }
            }
            1
        }
    } else if i == la && i == lb {
        assert(a@ =~= b@);
        0
    } else if i == la {
        assert(a@ =~= a@.take(i as int));
        -1
    } else {
        assert(b@ =~= b@.take(i as int));
        1
    }
}

proof fn lemma_filter_push(s: Seq<Seq<char>>, x: Seq<char>, p: Seq<char>)
    ensures
        with_prefix(s.push(x), p) == if is_prefix(p, x) {
            with_prefix(s, p).push(x)
        } else {
            with_prefix(s, p)
        },
{
    reveal(Seq::filter);
    assert(s.push(x).drop_last() =~= s);
    assert(s.push(x).last() == x);
}

/// The names among `files` that start with `prefix`, sorted.
pub fn hooks_of(files: &Vec<String>, prefix: &str) -> (r: Vec<String>)
    ensures
        sorted(segs_view(r@)),
        segs_view(r@).to_multiset() == with_prefix(segs_view(files@), prefix@).to_multiset(),
{
    let ghost fs = segs_view(files@);
    let mut out: Vec<String> = Vec::new();
    let mut i: usize = 0;
    proof {
        assert(fs.take(0) =~= Seq::<Seq<char>>::empty());
        reveal(Seq::filter);
        assert(segs_view(out@) =~= Seq::<Seq<char>>::empty());
    }
    while i < files.len()
        invariant
            i <= files.len(),
            fs == segs_view(files@),
            sorted(segs_view(out@)),
            segs_view(out@).to_multiset() == with_prefix(fs.take(i as int), prefix@).to_multiset(),
        decreases files.len() - i,
    {
        proof {
            lemma_segs_view(files@);
            assert(fs.take(i + 1) =~= fs.take(i as int).push(files@[i as int]@));
            lemma_filter_push(fs.take(i as int), files@[i as int]@, prefix@);
        }
        let name = files[i].as_str();
        if starts_with(name, prefix) {
            let mut k: usize = 0;
            while k < out.len() && compare_names(name, out[k].as_str()) != -1
                invariant
                    k <= out.len(),
                    forall|j: int| 0 <= j < k ==> lex_le(#[trigger] out@[j]@, name@),
                decreases out.len() - k,
            {
                proof {
                    if name@ == out@[k as int]@ {
                        assert(is_prefix(name@, out@[k as int]@)) by {
                            assert(name@.take(name@.len() as int) =~= name@);
                        }
                    }
                }
                k = k + 1;
            }
            let ghost before = out@;
            proof {
                lemma_segs_view(before);
            }
            out.insert(k, name.to_owned());
            proof {
                lemma_segs_view(out@);
                assert(segs_view(out@) =~= segs_view(before).insert(k as int, name@));
                assert(sorted(segs_view(out@))) by {
                    assert forall|j: int| 0 <= j < segs_view(out@).len() - 1 implies lex_le(
                        #[trigger] segs_view(out@)[j],
                        segs_view(out@)[j + 1],
                    ) by {
                        if j < k as int - 1 {
                            assert(segs_view(out@)[j] == segs_view(before)[j]);
                            assert(segs_view(out@)[j + 1] == segs_view(before)[j + 1]);
                        } else if j == k as int - 1 {
                        } else if j == k as int {
                        } else {
                            assert(segs_view(out@)[j] == segs_view(before)[j - 1]);
                            assert(segs_view(out@)[j + 1] == segs_view(before)[j]);
                        }
                    }
                }
            }
        }
        i = i + 1;
    }
    assert(fs.take(i as int) =~= fs);
    out
}

} // verus!
