//! Segmentation of a verb form into a chain of separable prefixes.
//!
//! The algorithm enumerates every decomposition of the form reachable by
//! repeatedly stripping a prefix found in the lexicon from the front of the
//! remaining string, filters out implausible decompositions, and picks the
//! best surviving one: first the decomposition whose remaining stripped form
//! is shortest, then, among those, the one with the most prefixes.

use vstd::prelude::*;
use vstd::string::*;
use crate::automaton::{lemma_prefixes_characterize, prefixes_of, PrefixSet};
use crate::text::{ends_with_str, starts_with_str, str_eq};

verus! {

/// Specification-level candidate decomposition: the prefixes stripped so
/// far, and the remaining stripped form.
#[verifier::ext_equal]
pub ghost struct CandView {
    pub prefixes: Seq<Seq<char>>,
    pub rest: Seq<char>,
}

/// A candidate decomposition of a verb form.
struct Candidate {
    prefixes: Vec<String>,
    rest: String,
}

impl DeepView for Candidate {
    type V = CandView;

    closed spec fn deep_view(&self) -> CandView {
        CandView { prefixes: self.prefixes.deep_view(), rest: self.rest@ }
    }
}

/// All decompositions of `rest` over the prefix set `ws`: the unstripped
/// candidate itself, then, for each member prefix of `rest` in increasing
/// length, every decomposition of the string left after stripping it.
pub open spec fn decomps(ws: Seq<Seq<char>>, rest: Seq<char>) -> Seq<CandView>
    decreases rest.len(), prefixes_of(ws, rest).len() + 1,
{
    seq![CandView { prefixes: Seq::empty(), rest }] + decomps_via(ws, rest, prefixes_of(ws, rest))
}

/// The decompositions of `rest` that start by stripping one of the prefixes
/// in `ps`, in the order of `ps`.
pub open spec fn decomps_via(ws: Seq<Seq<char>>, rest: Seq<char>, ps: Seq<Seq<char>>) -> Seq<
    CandView,
>
    decreases rest.len(), ps.len(),
{
    if ps.len() == 0 {
        Seq::empty()
    } else {
        decomps_via(ws, rest, ps.drop_last()) + {
            let p = ps.last();
            if 1 <= p.len() <= rest.len() {
                decomps(ws, rest.skip(p.len() as int)).map(
                    |i: int, d: CandView|
                        (CandView { prefixes: seq![p] + d.prefixes, rest: d.rest }),
                )
            } else {
                Seq::empty()
            }
        }
    }
}

/// Copy a vector of strings.
fn clone_string_vec(v: &Vec<String>) -> (r: Vec<String>)
    ensures
        r@ =~= v@,
{
    let mut r: Vec<String> = Vec::new();
    let n = v.len();
    let mut i: usize = 0;
    while i < n
        invariant
            i <= n,
            n == v@.len(),
            r@ =~= v@.take(i as int),
        decreases n - i,
    {
        r.push(v[i].clone());
        proof {
            assert(r@ =~= v@.take(i + 1));
        }
        i = i + 1;
    }
    proof {
        assert(v@.take(n as int) =~= v@);
    }
    r
}

/// Enumerate all decompositions of `rest` over the prefix set.
#[verifier::loop_isolation(false)]
fn decomps_exec(set: &PrefixSet, rest: &str) -> (r: Vec<Candidate>)
    ensures
        r.deep_view() == decomps(set@, rest@),
    decreases rest@.len(),
{
    let mut r: Vec<Candidate> = Vec::new();
    r.push(Candidate { prefixes: Vec::new(), rest: rest.to_owned() });
    proof {
        assert(r.deep_view() =~~= seq![CandView { prefixes: Seq::empty(), rest: rest@ }]);
    }
    let ps = set.prefixes(rest);
    let ghost psv = ps.deep_view();
    proof {
        lemma_prefixes_characterize(set@, rest@, rest@.len() as int);
        assert(psv == prefixes_of(set@, rest@));
    }
    let restlen = rest.unicode_len();
    let n = ps.len();
    proof {
        assert(forall|k: int| 0 <= k < n ==> ps@[k]@ == psv[k]);
        assert(forall|k: int| 0 <= k < psv.len() ==> 1 <= (#[trigger] psv[k]).len() <= rest@.len());
    }
    let mut i: usize = 0;
    while i < n
        invariant
            i <= n,
            r.deep_view() =~~= seq![CandView { prefixes: Seq::empty(), rest: rest@ }] + decomps_via(
                set@,
                rest@,
                psv.take(i as int),
            ),
        decreases n - i,
    {
        let plen = ps[i].unicode_len();
        proof {
            assert(ps@[i as int]@ == psv[i as int]);
            assert(1 <= plen <= restlen);
        }
        let sub = rest.substring_char(plen, restlen);
        proof {
            assert(sub@ =~= rest@.skip(plen as int));
        }
        let subr = decomps_exec(set, sub);
        let ghost subv = decomps(set@, rest@.skip(plen as int));
        let ghost f = |j: int, d: CandView|
            (CandView { prefixes: seq![psv[i as int]] + d.prefixes, rest: d.rest });
        let ghost r_before = r.deep_view();
        let m = subr.len();
        let mut j: usize = 0;
        while j < m
            invariant
                j <= m,
                r.deep_view() =~~= r_before + subv.map(f).take(j as int),
            decreases m - j,
        {
            let d = &subr[j];
            proof {
                assert(d.deep_view() == subv[j as int]);
            }
            let mut newp: Vec<String> = Vec::new();
            newp.push(ps[i].clone());
            let dn = d.prefixes.len();
            let mut k: usize = 0;
            while k < dn
                invariant
                    k <= dn,
                    newp.deep_view() =~~= seq![psv[i as int]] + d.prefixes.deep_view().take(
                        k as int,
                    ),
                decreases dn - k,
            {
                let ghost np_before = newp.deep_view();
                newp.push(d.prefixes[k].clone());
                proof {
                    assert(newp.deep_view() =~~= np_before.push(
                        d.prefixes.deep_view()[k as int],
                    ));
                    assert(d.prefixes.deep_view().take(k + 1) =~~= d.prefixes.deep_view().take(
                        k as int,
                    ).push(d.prefixes.deep_view()[k as int]));
                    assert(newp.deep_view() =~~= seq![psv[i as int]]
                        + d.prefixes.deep_view().take(k + 1));
                }
                k = k + 1;
            }
            proof {
                assert(d.prefixes.deep_view().take(dn as int) =~~= d.prefixes.deep_view());
            }
            let cand = Candidate { prefixes: newp, rest: d.rest.clone() };
            proof {
                assert(cand.deep_view().prefixes =~~= f(j as int, subv[j as int]).prefixes);
                assert(cand.deep_view() == f(j as int, subv[j as int]));
            }
            let ghost r_mid = r.deep_view();
            r.push(cand);
            proof {
                assert(r.deep_view() =~~= r_mid.push(cand.deep_view()));
                assert(subv.map(f).take(j + 1) =~~= subv.map(f).take(j as int).push(
                    f(j as int, subv[j as int]),
                ));
                assert(r.deep_view() =~~= r_before + subv.map(f).take(j + 1));
            }
            j = j + 1;
        }
        proof {
            assert(subv.map(f).take(m as int) =~~= subv.map(f));
            assert(psv.take(i + 1).drop_last() =~~= psv.take(i as int));
            assert(psv.take(i + 1).last() == psv[i as int]);
            assert(decomps_via(set@, rest@, psv.take(i + 1)) =~~= decomps_via(
                set@,
                rest@,
                psv.take(i as int),
            ) + subv.map(f));
            assert(r.deep_view() =~~= seq![CandView { prefixes: Seq::empty(), rest: rest@ }]
                + decomps_via(set@, rest@, psv.take(i + 1)));
        }
        i = i + 1;
    }
    proof {
        assert(psv.take(n as int) =~~= psv);
        assert(r.deep_view() =~~= decomps(set@, rest@));
    }
    r
}

/// Does a candidate decomposition survive the plausibility filters?
///
/// A non-trivial candidate is rejected when its last prefix would absorb the
/// infinitive particle of a zu-infinitive, when one of its prefixes is a
/// prefix of the lemma or its last prefix ends with the lemma (the match
/// overlaps the verb stem), or when the remaining stripped form is too short
/// to be a verb stem.
pub open spec fn keeps(c: CandView, lemma: Seq<char>, tag: Seq<char>) -> bool {
    c.prefixes.len() == 0 || {
        let last = c.prefixes.last();
        &&& !(tag == "VVIZU"@ && "zu"@.is_suffix_of(last) && !("zu"@.is_prefix_of(c.rest)))
        &&& !(exists|i: int|
            0 <= i < c.prefixes.len() && (#[trigger] c.prefixes[i]).is_prefix_of(lemma))
        &&& !lemma.is_suffix_of(last)
        &&& c.rest.len() > 2
    }
}

/// The candidates of `s` that survive the filters, in order.
pub open spec fn surviving(s: Seq<CandView>, lemma: Seq<char>, tag: Seq<char>) -> Seq<CandView>
    decreases s.len(),
{
    if s.len() == 0 {
        Seq::empty()
    } else {
        surviving(s.drop_last(), lemma, tag) + if keeps(s.last(), lemma, tag) {
            seq![s.last()]
        } else {
            Seq::empty()
        }
    }
}

/// Is candidate `a` ranked strictly better than `b`?  A shorter remaining
/// stripped form wins; on equal remainders, more extracted prefixes win.
pub open spec fn better(a: CandView, b: CandView) -> bool {
    ||| a.rest.len() < b.rest.len()
    ||| (a.rest.len() == b.rest.len() && a.prefixes.len() > b.prefixes.len())
}

/// The best-ranked candidate of a non-empty sequence; among equally ranked
/// candidates the latest wins.
pub open spec fn best_of(s: Seq<CandView>) -> CandView
    recommends
        s.len() > 0,
    decreases s.len(),
{
    if s.len() <= 1 {
        s[0]
    } else {
        let p = best_of(s.drop_last());
        if better(p, s.last()) {
            p
        } else {
            s.last()
        }
    }
}

/// The prefix list that segmentation returns: the prefixes of the best
/// surviving decomposition of `form`, or the empty list if none survives.
pub open spec fn longest_prefixes_spec(
    ws: Seq<Seq<char>>,
    form: Seq<char>,
    lemma: Seq<char>,
    tag: Seq<char>,
) -> Seq<Seq<char>> {
    let surv = surviving(decomps(ws, form), lemma, tag);
    if surv.len() == 0 {
        Seq::empty()
    } else {
        best_of(surv).prefixes
    }
}

/// Apply the plausibility filters to one candidate.
#[verifier::loop_isolation(false)]
fn keeps_exec(c: &Candidate, lemma: &str, tag: &str) -> (r: bool)
    ensures
        r == keeps(c.deep_view(), lemma@, tag@),
{
    let np = c.prefixes.len();
    if np == 0 {
        return true;
    }
    let last = &c.prefixes[np - 1];
    proof {
        assert(last@ == c.deep_view().prefixes.last());
    }
    if str_eq(tag, "VVIZU") && ends_with_str(last.as_str(), "zu") && !starts_with_str(
        c.rest.as_str(),
        "zu",
    ) {
        return false;
    }
    let mut i: usize = 0;
    while i < np
        invariant
            i <= np,
            forall|k: int|
                0 <= k < i ==> !(#[trigger] c.deep_view().prefixes[k]).is_prefix_of(lemma@),
        decreases np - i,
    {
        if starts_with_str(lemma, c.prefixes[i].as_str()) {
            proof {
                assert(c.deep_view().prefixes[i as int].is_prefix_of(lemma@));
            }
            return false;
        }
        i = i + 1;
    }
    if ends_with_str(last.as_str(), lemma) {
        return false;
    }
    if c.rest.unicode_len() <= 2 {
        return false;
    }
    true
}

/// Compare two candidates by rank.
fn better_exec(a: &Candidate, b: &Candidate) -> (r: bool)
    ensures
        r == better(a.deep_view(), b.deep_view()),
{
    let ar = a.rest.unicode_len();
    let br = b.rest.unicode_len();
    if ar < br {
        true
    } else if ar == br {
        a.prefixes.len() > b.prefixes.len()
    } else {
        false
    }
}

/// Segment `form` into separable prefixes: enumerate all decompositions over
/// the prefix set, filter out implausible ones, and return the prefixes of
/// the best surviving decomposition, or the empty list if none survives.
#[verifier::loop_isolation(false)]
pub fn longest_prefixes(prefix_set: &PrefixSet, form: &str, lemma: &str, tag: &str) -> (r: Vec<
    String,
>)
    ensures
        r.deep_view() == longest_prefixes_spec(prefix_set@, form@, lemma@, tag@),
{
    let cands = decomps_exec(prefix_set, form);
    let ghost cv = decomps(prefix_set@, form@);
    let n = cands.len();
    let mut best: usize = 0;
    let mut found: bool = false;
    let mut i: usize = 0;
    while i < n
        invariant
            i <= n,
            found ==> best < i,
            !found ==> surviving(cv.take(i as int), lemma@, tag@).len() == 0,
            found ==> surviving(cv.take(i as int), lemma@, tag@).len() > 0 && cv[best as int]
                == best_of(surviving(cv.take(i as int), lemma@, tag@)),
        decreases n - i,
    {
        let ghost prev_surv = surviving(cv.take(i as int), lemma@, tag@);
        proof {
            assert(cands@[i as int].deep_view() == cv[i as int]);
            assert(cv.take(i + 1).drop_last() =~~= cv.take(i as int));
            assert(cv.take(i + 1).last() == cv[i as int]);
        }
        if keeps_exec(&cands[i], lemma, tag) {
            proof {
                assert(surviving(cv.take(i + 1), lemma@, tag@) =~~= prev_surv + seq![
                    cv[i as int],
                ]);
            }
            if !found {
                found = true;
                best = i;
                proof {
                    assert(surviving(cv.take(i + 1), lemma@, tag@).len() == 1);
                    assert(best_of(surviving(cv.take(i + 1), lemma@, tag@)) == cv[i as int]);
                }
            } else {
                let ghost cur_surv = surviving(cv.take(i + 1), lemma@, tag@);
                proof {
                    assert(cur_surv.drop_last() =~~= prev_surv);
                    assert(cur_surv.last() == cv[i as int]);
                    assert(cur_surv.len() >= 2);
                }
                if !better_exec(&cands[best], &cands[i]) {
                    best = i;
                }
            }
        } else {
            proof {
                assert(surviving(cv.take(i + 1), lemma@, tag@) =~~= prev_surv);
            }
        }
        i = i + 1;
    }
    proof {
        assert(cv.take(n as int) =~~= cv);
    }
    if !found {
        let r: Vec<String> = Vec::new();
        proof {
            assert(r.deep_view() =~~= longest_prefixes_spec(prefix_set@, form@, lemma@, tag@));
        }
        r
    } else {
        let r = clone_string_vec(&cands[best].prefixes);
        proof {
            assert(cands@[best as int].deep_view() == cv[best as int]);
            assert(r.deep_view() =~~= cv[best as int].prefixes);
        }
        r
    }
}

/// Segmentation is deterministic: the same prefix set, form, lemma and tag
/// always yield the same prefix list.
pub proof fn lemma_segmentation_deterministic(
    ws1: Seq<Seq<char>>,
    form1: Seq<char>,
    lemma1: Seq<char>,
    tag1: Seq<char>,
    ws2: Seq<Seq<char>>,
    form2: Seq<char>,
    lemma2: Seq<char>,
    tag2: Seq<char>,
)
    requires
        ws1 == ws2,
        form1 == form2,
        lemma1 == lemma2,
        tag1 == tag2,
    ensures
        longest_prefixes_spec(ws1, form1, lemma1, tag1) == longest_prefixes_spec(
            ws2,
            form2,
            lemma2,
            tag2,
        ),
{
}

/// The best-ranked candidate is one of the sequence, and no candidate of the
/// sequence is ranked strictly better.
pub proof fn lemma_best_of_maximal(s: Seq<CandView>)
    requires
        s.len() > 0,
    ensures
        s.contains(best_of(s)),
        forall|i: int| 0 <= i < s.len() ==> !better(s[i], best_of(s)),
    decreases s.len(),
{
    if s.len() == 1 {
        assert(s.contains(best_of(s))) by {
            assert(s[0] == best_of(s));
        }
    } else {
        lemma_best_of_maximal(s.drop_last());
        let p = best_of(s.drop_last());
        let b = best_of(s);
        assert(forall|i: int| 0 <= i < s.len() - 1 ==> s.drop_last()[i] == s[i]);
        if better(p, s.last()) {
            assert(b == p);
            assert(s.contains(b)) by {
                let wit = choose|k: int|
                    0 <= k < s.drop_last().len() && s.drop_last()[k] == p;
                assert(s[wit] == b);
            }
            assert forall|i: int| 0 <= i < s.len() implies !better(s[i], b) by {
                if i < s.len() - 1 {
                    assert(!better(s.drop_last()[i], p));
                }
            }
        } else {
            assert(b == s.last());
            assert(s.contains(b)) by {
                assert(s[s.len() - 1] == b);
            }
            assert forall|i: int| 0 <= i < s.len() implies !better(s[i], b) by {
                if i < s.len() - 1 {
                    assert(!better(s.drop_last()[i], p));
                }
            }
        }
    }
}

/// Every survivor is one of the candidates and passes the filters, and every
/// candidate that passes the filters is among the survivors.
pub proof fn lemma_surviving_sound(s: Seq<CandView>, lemma: Seq<char>, tag: Seq<char>)
    ensures
        forall|i: int|
            0 <= i < surviving(s, lemma, tag).len() ==> s.contains(
                #[trigger] surviving(s, lemma, tag)[i],
            ) && keeps(surviving(s, lemma, tag)[i], lemma, tag),
        forall|i: int|
            0 <= i < s.len() && #[trigger] keeps(s[i], lemma, tag) ==> surviving(
                s,
                lemma,
                tag,
            ).contains(s[i]),
    decreases s.len(),
{
    if s.len() > 0 {
        lemma_surviving_sound(s.drop_last(), lemma, tag);
        let prev = surviving(s.drop_last(), lemma, tag);
        let cur = surviving(s, lemma, tag);
        assert(forall|i: int| 0 <= i < s.len() - 1 ==> s.drop_last()[i] == s[i]);
        assert(forall|i: int| 0 <= i < prev.len() ==> cur[i] == prev[i]);
        assert forall|i: int| 0 <= i < cur.len() implies s.contains(cur[i]) && keeps(
            cur[i],
            lemma,
            tag,
        ) by {
            if i < prev.len() {
                assert(s.drop_last().contains(prev[i]));
                let wit = choose|k: int|
                    0 <= k < s.drop_last().len() && s.drop_last()[k] == prev[i];
                assert(s[wit] == cur[i]);
            } else {
                assert(cur[i] == s.last());
                assert(s[s.len() - 1] == s.last());
            }
        }
        assert forall|i: int|
            0 <= i < s.len() && #[trigger] keeps(s[i], lemma, tag) implies cur.contains(
            s[i],
        ) by {
            if i < s.len() - 1 {
                assert(prev.contains(s.drop_last()[i]));
                let wit = choose|k: int| 0 <= k < prev.len() && prev[k] == s[i];
                assert(cur[wit] == s[i]);
            } else {
                assert(keeps(s.last(), lemma, tag));
                assert(cur.last() == s[i]);
            }
        }
    }
}

/// The unstripped candidate always survives the filters, so segmentation
/// always has a best candidate to choose from.
pub proof fn lemma_survivors_nonempty(
    ws: Seq<Seq<char>>,
    form: Seq<char>,
    lemma: Seq<char>,
    tag: Seq<char>,
)
    ensures
        surviving(decomps(ws, form), lemma, tag).len() > 0,
{
    let ds = decomps(ws, form);
    assert(ds[0] == CandView { prefixes: Seq::<Seq<char>>::empty(), rest: form });
    assert(keeps(ds[0], lemma, tag));
    lemma_surviving_sound(ds, lemma, tag);
    assert(surviving(ds, lemma, tag).contains(ds[0]));
}

/// The ranking law: the returned prefix list belongs to a surviving
/// decomposition that no other surviving decomposition beats: none has a
/// shorter remaining form, and none with an equally short remaining form
/// has more prefixes.
pub proof fn lemma_longest_prefixes_maximal(
    ws: Seq<Seq<char>>,
    form: Seq<char>,
    lemma: Seq<char>,
    tag: Seq<char>,
)
    ensures
        surviving(decomps(ws, form), lemma, tag).contains(
            best_of(surviving(decomps(ws, form), lemma, tag)),
        ),
        longest_prefixes_spec(ws, form, lemma, tag) == best_of(
            surviving(decomps(ws, form), lemma, tag),
        ).prefixes,
        forall|i: int|
            0 <= i < surviving(decomps(ws, form), lemma, tag).len() ==> !better(
                #[trigger] surviving(decomps(ws, form), lemma, tag)[i],
                best_of(surviving(decomps(ws, form), lemma, tag)),
            ),
{
    lemma_survivors_nonempty(ws, form, lemma, tag);
    lemma_best_of_maximal(surviving(decomps(ws, form), lemma, tag));
}

/// The concatenation of a sequence of prefix strings.
pub open spec fn cat(ps: Seq<Seq<char>>) -> Seq<char>
    decreases ps.len(),
{
    if ps.len() == 0 {
        Seq::empty()
    } else {
        cat(ps.drop_last()) + ps.last()
    }
}

/// Concatenation after prepending one string.
proof fn lemma_cat_prepend(p: Seq<char>, t: Seq<Seq<char>>)
    ensures
        cat(seq![p] + t) == p + cat(t),
    decreases t.len(),
{
    if t.len() == 0 {
        assert(seq![p] + t =~= seq![p]);
        assert(cat(seq![p]) == cat(seq![p].drop_last()) + p);
        assert(seq![p].drop_last() =~= Seq::<Seq<char>>::empty());
        assert(cat(seq![p] + t) =~= p + cat(t));
    } else {
        lemma_cat_prepend(p, t.drop_last());
        assert((seq![p] + t).drop_last() =~= seq![p] + t.drop_last());
        assert((seq![p] + t).last() == t.last());
        assert(cat(seq![p] + t) =~= p + cat(t));
    }
}

/// Does `(ps, rest)` decompose `word`: the prefixes are non-empty members
/// of the set and, followed by the remainder, they spell the word?
pub open spec fn is_decomposition(
    ws: Seq<Seq<char>>,
    word: Seq<char>,
    ps: Seq<Seq<char>>,
    rest: Seq<char>,
) -> bool {
    &&& cat(ps) + rest == word
    &&& forall|j: int| 0 <= j < ps.len() ==> ws.contains(#[trigger] ps[j]) && ps[j].len() >= 1
}

/// Everything the enumeration visits is a decomposition of the word.
pub proof fn lemma_decomps_sound(ws: Seq<Seq<char>>, word: Seq<char>)
    ensures
        forall|i: int|
            0 <= i < decomps(ws, word).len() ==> is_decomposition(
                ws,
                word,
                (#[trigger] decomps(ws, word)[i]).prefixes,
                decomps(ws, word)[i].rest,
            ),
    decreases word.len(), prefixes_of(ws, word).len() + 1,
{
    let ds = decomps(ws, word);
    assert(ds[0].prefixes =~= Seq::<Seq<char>>::empty());
    assert(cat(ds[0].prefixes) + word =~= word);
    lemma_prefixes_characterize(ws, word, word.len() as int);
    lemma_decomps_via_sound(ws, word, prefixes_of(ws, word));
    assert(forall|i: int|
        1 <= i < ds.len() ==> ds[i] == decomps_via(ws, word, prefixes_of(ws, word))[i - 1]);
}

/// Everything the enumeration visits through a stripped first prefix is a
/// decomposition of the word.
proof fn lemma_decomps_via_sound(ws: Seq<Seq<char>>, word: Seq<char>, ps: Seq<Seq<char>>)
    requires
        forall|k: int|
            0 <= k < ps.len() ==> {
                &&& ws.contains(#[trigger] ps[k])
                &&& ps[k].is_prefix_of(word)
                &&& 1 <= ps[k].len() <= word.len()
            },
    ensures
        forall|i: int|
            0 <= i < decomps_via(ws, word, ps).len() ==> is_decomposition(
                ws,
                word,
                (#[trigger] decomps_via(ws, word, ps)[i]).prefixes,
                decomps_via(ws, word, ps)[i].rest,
            ),
    decreases word.len(), ps.len(),
{
    if ps.len() > 0 {
        lemma_decomps_via_sound(ws, word, ps.drop_last());
        let p = ps.last();
        let prev = decomps_via(ws, word, ps.drop_last());
        let cur = decomps_via(ws, word, ps);
        assert(forall|i: int| 0 <= i < prev.len() ==> cur[i] == prev[i]);
        let sub = word.skip(p.len() as int);
        lemma_decomps_sound(ws, sub);
        assert forall|i: int|
            prev.len() <= i < cur.len() implies is_decomposition(
            ws,
            word,
            cur[i].prefixes,
            cur[i].rest,
        ) by {
            let d = decomps(ws, sub)[i - prev.len()];
            assert(cur[i] == CandView { prefixes: seq![p] + d.prefixes, rest: d.rest });
            assert(is_decomposition(ws, sub, d.prefixes, d.rest));
            lemma_cat_prepend(p, d.prefixes);
            assert(p + sub =~= word);
            assert(cat(cur[i].prefixes) + cur[i].rest =~= (p + cat(d.prefixes)) + d.rest);
            assert((p + cat(d.prefixes)) + d.rest =~= p + (cat(d.prefixes) + d.rest));
            assert(forall|j: int|
                1 <= j < cur[i].prefixes.len() ==> cur[i].prefixes[j] == d.prefixes[j - 1]);
            assert(cur[i].prefixes[0] == p);
        }
    }
}

/// Every decomposition of the word is visited by the enumeration.
pub proof fn lemma_decomps_complete(
    ws: Seq<Seq<char>>,
    word: Seq<char>,
    ps: Seq<Seq<char>>,
    rest: Seq<char>,
)
    requires
        is_decomposition(ws, word, ps, rest),
    ensures
        decomps(ws, word).contains(CandView { prefixes: ps, rest }),
    decreases ps.len(),
{
    let d = CandView { prefixes: ps, rest };
    if ps.len() == 0 {
        assert(word =~= rest);
        assert(decomps(ws, word)[0] =~~= d);
        assert(decomps(ws, word)[0] == d);
    } else {
        let p = ps[0];
        let tail = ps.skip(1);
        assert(ps =~= seq![p] + tail);
        lemma_cat_prepend(p, tail);
        let sub = word.skip(p.len() as int);
        assert(p.len() <= word.len()) by {
            assert(cat(ps) + rest == word);
            assert(cat(ps) == p + cat(tail));
        }
        assert(p.is_prefix_of(word)) by {
            assert(word =~= (p + cat(tail)) + rest);
            assert(forall|j: int| 0 <= j < p.len() ==> word[j] == p[j]);
            assert(word.take(p.len() as int) =~= p);
        }
        assert(cat(tail) + rest =~= sub) by {
            assert(word =~= (p + cat(tail)) + rest);
        }
        assert(forall|j: int| 0 <= j < tail.len() ==> tail[j] == ps[j + 1]);
        assert(is_decomposition(ws, sub, tail, rest));
        lemma_decomps_complete(ws, sub, tail, rest);
        lemma_prefixes_characterize(ws, word, word.len() as int);
        let pf = prefixes_of(ws, word);
        assert(pf.contains(p)) by {
            assert(word.take(p.len() as int) == p);
            assert(1 <= p.len() <= word.len());
        }
        let k = choose|k: int| 0 <= k < pf.len() && pf[k] == p;
        let subd = CandView { prefixes: tail, rest };
        let si = choose|si: int|
            0 <= si < decomps(ws, sub).len() && decomps(ws, sub)[si] == subd;
        lemma_decomps_via_catches(ws, word, pf, k, si);
        let f = |j: int, e: CandView|
            (CandView { prefixes: seq![pf[k]] + e.prefixes, rest: e.rest });
        let wit = choose|wit: int|
            0 <= wit < decomps_via(ws, word, pf).len() && decomps_via(ws, word, pf)[wit] == f(
                si,
                decomps(ws, sub)[si],
            );
        assert(f(si, decomps(ws, sub)[si]) =~~= d);
        assert(decomps(ws, word)[wit + 1] == d);
    }
}

/// The mapped copy of any decomposition of the stripped word appears in
/// `decomps_via` for the prefix that stripped it.
proof fn lemma_decomps_via_catches(
    ws: Seq<Seq<char>>,
    word: Seq<char>,
    ps: Seq<Seq<char>>,
    k: int,
    si: int,
)
    requires
        0 <= k < ps.len(),
        1 <= ps[k].len() <= word.len(),
        0 <= si < decomps(ws, word.skip(ps[k].len() as int)).len(),
    ensures
        exists|wit: int|
            0 <= wit < decomps_via(ws, word, ps).len() && decomps_via(ws, word, ps)[wit]
                == (|j: int, e: CandView|
                (CandView { prefixes: seq![ps[k]] + e.prefixes, rest: e.rest }))(
                si,
                decomps(ws, word.skip(ps[k].len() as int))[si],
            ),
    decreases ps.len(),
{
    let prev = decomps_via(ws, word, ps.drop_last());
    let cur = decomps_via(ws, word, ps);
    if k == ps.len() - 1 {
        let p = ps.last();
        let sub = word.skip(p.len() as int);
        let f = |j: int, e: CandView| (CandView { prefixes: seq![p] + e.prefixes, rest: e.rest });
        assert(cur == prev + decomps(ws, sub).map(f));
        assert(cur[prev.len() + si] == f(si, decomps(ws, sub)[si]));
    } else {
        assert(ps.drop_last()[k] == ps[k]);
        lemma_decomps_via_catches(ws, word, ps.drop_last(), k, si);
        let wit = choose|wit: int|
            0 <= wit < prev.len() && prev[wit] == (|j: int, e: CandView|
                (CandView {
                    prefixes: seq![ps.drop_last()[k]] + e.prefixes,
                    rest: e.rest,
                }))(si, decomps(ws, word.skip(ps.drop_last()[k].len() as int))[si]);
        assert(cur[wit] == prev[wit]);
    }
}

/// What segmentation returns: the prefix list of a surviving decomposition
/// of the form that no other surviving decomposition beats; when nothing
/// but the unstripped candidate survives, that is the empty list.
pub proof fn lemma_segmentation_characterized(
    ws: Seq<Seq<char>>,
    form: Seq<char>,
    lemma: Seq<char>,
    tag: Seq<char>,
)
    ensures
        exists|rest: Seq<char>|
            is_decomposition(ws, form, longest_prefixes_spec(ws, form, lemma, tag), rest) && keeps(
                CandView { prefixes: longest_prefixes_spec(ws, form, lemma, tag), rest },
                lemma,
                tag,
            ),
        forall|i: int|
            0 <= i < surviving(decomps(ws, form), lemma, tag).len() ==> !better(
                #[trigger] surviving(decomps(ws, form), lemma, tag)[i],
                best_of(surviving(decomps(ws, form), lemma, tag)),
            ),
{
    lemma_survivors_nonempty(ws, form, lemma, tag);
    let surv = surviving(decomps(ws, form), lemma, tag);
    lemma_best_of_maximal(surv);
    lemma_surviving_sound(decomps(ws, form), lemma, tag);
    let b = best_of(surv);
    let i = choose|i: int| 0 <= i < surv.len() && surv[i] == b;
    let j = choose|j: int| 0 <= j < decomps(ws, form).len() && decomps(ws, form)[j] == b;
    lemma_decomps_sound(ws, form);
    assert(is_decomposition(ws, form, b.prefixes, b.rest));
    assert(longest_prefixes_spec(ws, form, lemma, tag) == b.prefixes);
    assert(keeps(CandView { prefixes: b.prefixes, rest: b.rest }, lemma, tag)) by {
        assert(keeps(surv[i], lemma, tag));
        assert((CandView { prefixes: b.prefixes, rest: b.rest }) =~~= b);
    }
}

} // verus!
