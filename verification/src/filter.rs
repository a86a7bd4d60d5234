//! Candidate filtering: which dependency names complete the current
//! argument, and in what order they are emitted.
//!
//! Completing an argument of the `update` command offers every dependency;
//! any other argument is completed by the names it is a prefix of.  The
//! required group always comes before the development group, each in its
//! manifest order.

use vstd::prelude::*;
use crate::manifest::DependencyManifest;

verus! {

/// The command whose arguments are completed with the full dependency
/// list.
pub open spec fn update_command() -> Seq<char> {
    "update"@
}

/// Whether `p` is a prefix of `s`.
pub open spec fn spec_is_prefix(p: Seq<char>, s: Seq<char>) -> bool {
    p.len() <= s.len() && s.take(p.len() as int) == p
}

/// Whether the name `name` is offered for the current argument `arg`.
pub open spec fn spec_passes(arg: Seq<char>, name: Seq<char>) -> bool {
    arg == update_command() || spec_is_prefix(arg, name)
}

/// The names among `names` offered for `arg`, in their original order.
pub open spec fn spec_candidates(arg: Seq<char>, names: Seq<Seq<char>>) -> Seq<Seq<char>> {
    names.filter(|n: Seq<char>| spec_passes(arg, n))
}

/// All completion lines for one invocation: the passing required names,
/// then the passing development names.
pub open spec fn spec_candidate_lines(arg: Seq<char>, m: DependencyManifest) -> Seq<Seq<char>> {
    spec_candidates(arg, m.require_names()) + spec_candidates(arg, m.require_dev_names())
}

/// How the candidate list grows by one name: a passing name is appended,
/// any other name leaves the list unchanged.
pub proof fn lemma_candidates_push(arg: Seq<char>, names: Seq<Seq<char>>, x: Seq<char>)
    ensures
        spec_candidates(arg, names.push(x)) == if spec_passes(arg, x) {
            spec_candidates(arg, names).push(x)
        } else {
            spec_candidates(arg, names)
        },
{
    reveal(Seq::filter);
    assert(names.push(x).drop_last() =~= names);
    assert(names.push(x).last() == x);
}

/// Decides string equality on character sequences.
pub fn str_eq(a: &str, b: &str) -> (r: bool)
    ensures
        r == (a@ == b@),
{
    let n = a.unicode_len();
    if n != b.unicode_len() {
        return false;
    }
    let mut i: usize = 0;
    while i < n
        invariant
            i <= n,
            n == a@.len(),
            n == b@.len(),
            forall|j: int| 0 <= j < i ==> a@[j] == b@[j],
        decreases n - i,
    {
        if a.get_char(i) != b.get_char(i) {
            return false;
        }
        i = i + 1;
    }
    proof {
        assert(a@ =~= b@);
    }
    true
}

/// Decides `spec_is_prefix(prefix@, name@)`.
pub fn starts_with_str(name: &str, prefix: &str) -> (r: bool)
    ensures
        r == spec_is_prefix(prefix@, name@),
{
    let p = prefix.unicode_len();
    let n = name.unicode_len();
    if p > n {
        return false;
    }
    let mut i: usize = 0;
    while i < p
        invariant
            i <= p <= n,
            p == prefix@.len(),
            n == name@.len(),
            forall|j: int| 0 <= j < i ==> name@[j] == prefix@[j],
        decreases p - i,
    {
        if name.get_char(i) != prefix.get_char(i) {
            proof {
                assert(name@.take(p as int)[i as int] != prefix@[i as int]);
            }
            return false;
        }
        i = i + 1;
    }
    proof {
        assert(name@.take(p as int) =~= prefix@);
    }
    true
}

/// The names among `names` that complete `arg`, in their original order.
pub fn filter_candidates(arg: &str, names: &Vec<String>) -> (r: Vec<String>)
    ensures
        r@.map_values(|s: String| s@) == spec_candidates(
            arg@,
            names@.map_values(|s: String| s@),
        ),
{
    let is_update = str_eq(arg, "update");
    let ghost nameseq = names@.map_values(|s: String| s@);
    let mut r: Vec<String> = Vec::new();
    proof {
        reveal(Seq::filter);
        assert(nameseq.take(0) =~= Seq::<Seq<char>>::empty());
        assert(r@.map_values(|s: String| s@) =~= spec_candidates(arg@, nameseq.take(0)));
    }
    let n = names.len();
    let mut i: usize = 0;
    while i < n
        invariant
            i <= n,
            n == names@.len(),
            nameseq == names@.map_values(|s: String| s@),
            is_update == (arg@ == update_command()),
            r@.map_values(|s: String| s@) == spec_candidates(arg@, nameseq.take(i as int)),
        decreases n - i,
    {
        let name = &names[i];
        let keep = if is_update {
            true
        } else {
            starts_with_str(name.as_str(), arg)
        };
        proof {
            assert(nameseq.take(i as int + 1) =~= nameseq.take(i as int).push(
                nameseq[i as int],
            ));
            lemma_candidates_push(arg@, nameseq.take(i as int), nameseq[i as int]);
            assert(keep == spec_passes(arg@, nameseq[i as int]));
        }
        if keep {
            let ghost prev = r@;
            r.push(name.clone());
            proof {
                assert(r@.map_values(|s: String| s@) =~= prev.map_values(|s: String| s@).push(
                    nameseq[i as int],
                ));
            }
        }
        i = i + 1;
    }
    proof {
        assert(nameseq.take(n as int) =~= nameseq);
    }
    r
}

/// Every completion line for one invocation: the passing required names,
/// then the passing development names, each group in manifest order.
pub fn candidate_lines(arg: &str, m: &DependencyManifest) -> (r: Vec<String>)
    ensures
        r@.map_values(|s: String| s@) == spec_candidate_lines(arg@, *m),
{
    let mut out = filter_candidates(arg, &m.require);
    let mut dev = filter_candidates(arg, &m.require_dev);
    let ghost a = out@;
    let ghost b = dev@;
    out.append(&mut dev);
    proof {
        assert(out@.map_values(|s: String| s@) =~= a.map_values(|s: String| s@)
            + b.map_values(|s: String| s@));
    }
    out
}

/// Completing an argument of `update` offers the whole list: filtering
/// with the update command keeps every name.
pub proof fn lemma_update_passes_all(names: Seq<Seq<char>>)
    ensures
        spec_candidates(update_command(), names) == names,
    decreases names.len(),
{
    reveal(Seq::filter);
    if names.len() > 0 {
        lemma_update_passes_all(names.drop_last());
        assert(names.drop_last().push(names.last()) =~= names);
    }
}

/// Completing an argument of `update` emits the full ordered
/// concatenation of the required and development names, whatever their
/// prefixes.
pub proof fn lemma_update_full_list(m: DependencyManifest)
    ensures
        spec_candidate_lines(update_command(), m) == m.require_names() + m.require_dev_names(),
{
    lemma_update_passes_all(m.require_names());
    lemma_update_passes_all(m.require_dev_names());
}

/// For any current argument other than `update`: every offered name has
/// the argument as a prefix, every occurrence of a name with that prefix
/// is offered exactly as often as it appears, and no other name is
/// offered.  Order preservation is the definition of `spec_candidates`:
/// it is `Seq::filter`, which keeps the original order.
pub proof fn lemma_prefix_filtering(arg: Seq<char>, names: Seq<Seq<char>>)
    requires
        arg != update_command(),
    ensures
        forall|i: int|
            0 <= i < spec_candidates(arg, names).len() ==> spec_is_prefix(
                arg,
                #[trigger] spec_candidates(arg, names)[i],
            ),
        forall|x: Seq<char>|
            spec_is_prefix(arg, x) ==> spec_candidates(arg, names).to_multiset().count(x)
                == names.to_multiset().count(x),
        forall|x: Seq<char>|
            !spec_is_prefix(arg, x) ==> spec_candidates(arg, names).to_multiset().count(x)
                == 0,
    decreases names.len(),
{
    broadcast use vstd::seq_lib::group_to_multiset_ensures;

    reveal(Seq::filter);
    if names.len() == 0 {
        assert(spec_candidates(arg, names) =~= Seq::<Seq<char>>::empty());
        assert(forall|x: Seq<char>|
            Seq::<Seq<char>>::empty().to_multiset().count(x) == 0);
    } else {
        let prev = names.drop_last();
        let x = names.last();
        lemma_prefix_filtering(arg, prev);
        lemma_candidates_push(arg, prev, x);
        assert(prev.push(x) =~= names);
    }
}

/// For any current argument other than `update`, over the whole emitted
/// list: every line has the argument as a prefix, and every occurrence of
/// a name with that prefix, in either group, is emitted exactly once.
/// Group order is the definition of `spec_candidate_lines`: the required
/// candidates precede the development ones.
pub proof fn lemma_prefix_lines(arg: Seq<char>, m: DependencyManifest)
    requires
        arg != update_command(),
    ensures
        forall|i: int|
            0 <= i < spec_candidate_lines(arg, m).len() ==> spec_is_prefix(
                arg,
                #[trigger] spec_candidate_lines(arg, m)[i],
            ),
        forall|x: Seq<char>|
            spec_is_prefix(arg, x) ==> spec_candidate_lines(arg, m).to_multiset().count(x)
                == m.require_names().to_multiset().count(x)
                + m.require_dev_names().to_multiset().count(x),
        forall|x: Seq<char>|
            !spec_is_prefix(arg, x) ==> spec_candidate_lines(arg, m).to_multiset().count(x)
                == 0,
{
    broadcast use vstd::multiset::group_multiset_axioms;

    let req = spec_candidates(arg, m.require_names());
    let dev = spec_candidates(arg, m.require_dev_names());
    lemma_prefix_filtering(arg, m.require_names());
    lemma_prefix_filtering(arg, m.require_dev_names());
    vstd::seq_lib::lemma_multiset_commutative(req, dev);
    assert forall|i: int| 0 <= i < spec_candidate_lines(arg, m).len() implies spec_is_prefix(
        arg,
        #[trigger] spec_candidate_lines(arg, m)[i],
    ) by {
        if i < req.len() {
            assert(spec_candidate_lines(arg, m)[i] == req[i]);
        } else {
            assert(spec_candidate_lines(arg, m)[i] == dev[i - req.len()]);
        }
    }
}

} // verus!
