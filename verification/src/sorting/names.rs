//! Choosing the name under which a file enters a folder, so that it takes the
//! place of no file that is already there.

use crate::sorting::decimal::{decimal, lemma_decimal_injective, render};
use vstd::prelude::*;
use vstd::set_lib::lemma_len_subset;
use vstd::string::*;

verus! {

/// What a renamed file's name starts with.
pub open spec fn dub_prefix() -> Seq<char> {
    seq!['d', 'u', 'b', 'b', 'e', 'd', '_']
}

/// The `k`-th substitute for `name`: `dubbed_`, the counter, `-`, the name.
pub open spec fn dubbed(name: Seq<char>, k: nat) -> Seq<char> {
    dub_prefix() + decimal(k) + seq!['-'] + name
}

/// The `k`-th name that is tried for a file: its own, then its substitutes.
pub open spec fn candidate(name: Seq<char>, k: nat) -> Seq<char> {
    if k == 0 {
        name
    } else {
        dubbed(name, k)
    }
}

/// The names that a folder with these files holds.
pub open spec fn names_of(files: Seq<String>) -> Set<Seq<char>> {
    files.map_values(|f: String| f@).to_set()
}

/// Whether `k` is the first counter, from 1 on, whose substitute is free.
pub open spec fn is_first_free(name: Seq<char>, taken: Set<Seq<char>>, k: nat) -> bool {
    &&& k >= 1
    &&& !taken.contains(dubbed(name, k))
    &&& forall|j: nat| 1 <= j < k ==> taken.contains(#[trigger] dubbed(name, j))
}

/// The first counter, from 1 on, whose substitute is free.
pub open spec fn first_free(name: Seq<char>, taken: Set<Seq<char>>) -> nat {
    choose|k: nat| is_first_free(name, taken, k)
}

/// The counter of the name that a file gets in a folder that holds `taken`:
/// 0 for its own name.
pub open spec fn counter_of(name: Seq<char>, taken: Set<Seq<char>>) -> nat {
    if taken.contains(name) {
        first_free(name, taken)
    } else {
        0
    }
}

/// The name under which a file enters a folder that holds `taken`: its own
/// where that is free; else, where renaming is allowed, its first free
/// substitute; else none.
pub open spec fn resolved_name(name: Seq<char>, taken: Set<Seq<char>>, force: bool) -> Option<
    Seq<char>,
> {
    if !taken.contains(name) {
        Some(name)
    } else if force {
        Some(dubbed(name, first_free(name, taken)))
    } else {
        None
    }
}

/// Substitutes with different counters differ.
pub proof fn lemma_dubbed_injective(name: Seq<char>, j: nat, k: nat)
    requires
        dubbed(name, j) == dubbed(name, k),
    ensures
        j == k,
{
    let a = dubbed(name, j);
    let b = dubbed(name, k);
    assert(a.len() == 7 + decimal(j).len() + 1 + name.len());
    assert(b.len() == 7 + decimal(k).len() + 1 + name.len());
    assert(decimal(j) =~= a.subrange(7, 7 + decimal(j).len() as int));
    assert(decimal(k) =~= b.subrange(7, 7 + decimal(k).len() as int));
    lemma_decimal_injective(j, k);
}

/// A substitute is never the name itself.
pub proof fn lemma_dubbed_differs(name: Seq<char>, k: nat)
    ensures
        dubbed(name, k) != name,
{
    assert(dubbed(name, k).len() == 7 + decimal(k).len() + 1 + name.len());
}

/// The substitutes with the counters from 1 up to, but without, `k`.
pub open spec fn run(name: Seq<char>, k: nat) -> Set<Seq<char>>
    decreases k,
{
    if k <= 1 {
        Set::empty()
    } else {
        run(name, (k - 1) as nat).insert(dubbed(name, (k - 1) as nat))
    }
}

/// `run(name, k)` holds the substitutes below `k`, nothing else, and each once.
pub proof fn lemma_run(name: Seq<char>, k: nat)
    requires
        k >= 1,
    ensures
        run(name, k).finite(),
        run(name, k).len() == k - 1,
        forall|j: nat| 1 <= j < k ==> run(name, k).contains(#[trigger] dubbed(name, j)),
        forall|s: Seq<char>| #[trigger]
            run(name, k).contains(s) ==> exists|j: nat| 1 <= j < k && s == dubbed(name, j),
    decreases k,
{
    if k > 1 {
        let before = (k - 1) as nat;
        lemma_run(name, before);
        let rest = run(name, before);
        if rest.contains(dubbed(name, before)) {
            let j = choose|j: nat| 1 <= j < before && dubbed(name, before) == dubbed(name, j);
            lemma_dubbed_injective(name, before, j);
        }
        assert forall|s: Seq<char>| #[trigger] run(name, k).contains(s) implies exists|j: nat|
            1 <= j < k && s == dubbed(name, j) by {
            if rest.contains(s) {
                let j = choose|j: nat| 1 <= j < before && s == dubbed(name, j);
                assert(1 <= j < k && s == dubbed(name, j));
            } else {
                assert(1 <= before < k && s == dubbed(name, before));
            }
        }
    }
}

/// Where all substitutes below `k` are taken, there are at least `k - 1` names.
pub proof fn lemma_run_bound(name: Seq<char>, taken: Set<Seq<char>>, k: nat)
    requires
        taken.finite(),
        k >= 1,
        forall|j: nat| 1 <= j < k ==> taken.contains(#[trigger] dubbed(name, j)),
    ensures
        k - 1 <= taken.len(),
{
    lemma_run(name, k);
    assert forall|s: Seq<char>| run(name, k).contains(s) implies taken.contains(s) by {
        let j = choose|j: nat| 1 <= j < k && s == dubbed(name, j);
        assert(taken.contains(dubbed(name, j)));
    }
    lemma_len_subset(run(name, k), taken);
}

/// There is one first free counter at most.
pub proof fn lemma_first_free_unique(name: Seq<char>, taken: Set<Seq<char>>, k: nat)
    requires
        is_first_free(name, taken, k),
    ensures
        first_free(name, taken) == k,
{
    let m = first_free(name, taken);
    assert(is_first_free(name, taken, m));
    if m < k {
        assert(taken.contains(dubbed(name, m)));
    }
    if k < m {
        assert(taken.contains(dubbed(name, k)));
    }
}

proof fn lemma_free_from(name: Seq<char>, taken: Set<Seq<char>>, k: nat)
    requires
        taken.finite(),
        k >= 1,
        forall|j: nat| 1 <= j < k ==> taken.contains(#[trigger] dubbed(name, j)),
    ensures
        is_first_free(name, taken, first_free(name, taken)),
    decreases taken.len() + 1 - k,
{
    lemma_run_bound(name, taken, k);
    if taken.contains(dubbed(name, k)) {
        lemma_run_bound(name, taken, k + 1);
        lemma_free_from(name, taken, k + 1);
    } else {
        assert(is_first_free(name, taken, k));
    }
}

/// In a folder of finitely many files some substitute is free.
pub proof fn lemma_first_free_exists(name: Seq<char>, taken: Set<Seq<char>>)
    requires
        taken.finite(),
    ensures
        is_first_free(name, taken, first_free(name, taken)),
{
    lemma_free_from(name, taken, 1);
}

/// The name that a file gets is free, and it is the candidate of its counter.
pub proof fn lemma_resolved_is_free(name: Seq<char>, taken: Set<Seq<char>>)
    requires
        taken.finite(),
    ensures
        resolved_name(name, taken, true) == Some(candidate(name, counter_of(name, taken))),
        !taken.contains(candidate(name, counter_of(name, taken))),
        forall|j: nat|
            j < counter_of(name, taken) ==> taken.contains(#[trigger] candidate(name, j)),
{
    lemma_first_free_exists(name, taken);
}

/// Candidates with different counters differ.
pub proof fn lemma_candidate_injective(name: Seq<char>, j: nat, k: nat)
    requires
        candidate(name, j) == candidate(name, k),
    ensures
        j == k,
{
    lemma_dubbed_differs(name, j);
    lemma_dubbed_differs(name, k);
    if j >= 1 && k >= 1 {
        lemma_dubbed_injective(name, j, k);
    }
}

/// What a folder holds after `n` files called `name` have entered it one
/// after another, renaming allowed, each under the name that was then free.
pub open spec fn after_rounds(name: Seq<char>, taken: Set<Seq<char>>, n: nat) -> Set<Seq<char>>
    decreases n,
{
    if n == 0 {
        taken
    } else {
        let before = after_rounds(name, taken, (n - 1) as nat);
        before.insert(candidate(name, counter_of(name, before)))
    }
}

/// The counter under which the file after the first `i` enters the folder.
pub open spec fn nth_counter(name: Seq<char>, taken: Set<Seq<char>>, i: nat) -> nat {
    counter_of(name, after_rounds(name, taken, i))
}

/// Files that enter a folder take nothing away from it, and each adds one
/// name.
pub proof fn lemma_rounds_grow(name: Seq<char>, taken: Set<Seq<char>>, m: nat, n: nat)
    requires
        taken.finite(),
        m <= n,
    ensures
        after_rounds(name, taken, n).finite(),
        after_rounds(name, taken, m).subset_of(after_rounds(name, taken, n)),
        after_rounds(name, taken, n).len() == taken.len() + n,
    decreases n,
{
    if n > 0 {
        let before = after_rounds(name, taken, (n - 1) as nat);
        lemma_rounds_grow(name, taken, if m < n { m } else { (n - 1) as nat }, (n - 1) as nat);
        lemma_resolved_is_free(name, before);
    }
}

/// Files of one name that enter a folder one after another, renaming allowed,
/// get counters that grow: the names under which they enter all differ, a
/// file enters under the name itself only where that was free, and every
/// later one enters under a substitute.
pub proof fn lemma_rounds_counters_grow(name: Seq<char>, taken: Set<Seq<char>>, i: nat, j: nat)
    requires
        taken.finite(),
        i < j,
    ensures
        nth_counter(name, taken, i) < nth_counter(name, taken, j),
        candidate(name, nth_counter(name, taken, i)) != candidate(
            name,
            nth_counter(name, taken, j),
        ),
        nth_counter(name, taken, j) >= 1,
        nth_counter(name, taken, i) == 0 <==> !after_rounds(name, taken, i).contains(name),
{
    let at_i = after_rounds(name, taken, i);
    let next = after_rounds(name, taken, i + 1);
    let at_j = after_rounds(name, taken, j);
    let ci = nth_counter(name, taken, i);
    let cj = nth_counter(name, taken, j);
    lemma_rounds_grow(name, taken, i, i);
    lemma_rounds_grow(name, taken, i + 1, j);
    lemma_resolved_is_free(name, at_i);
    lemma_resolved_is_free(name, at_j);
    assert(next == at_i.insert(candidate(name, ci)));
    assert forall|c: nat| c <= ci implies at_j.contains(#[trigger] candidate(name, c)) by {
        assert(next.contains(candidate(name, c)));
    }
    if cj <= ci {
        assert(at_j.contains(candidate(name, cj)));
    }
    if candidate(name, ci) == candidate(name, cj) {
        lemma_candidate_injective(name, ci, cj);
    }
    if ci == 0 && at_i.contains(name) {
        lemma_first_free_exists(name, at_i);
    }
}

/// Into a folder that holds neither the name nor a substitute for it, the
/// first file enters under the name itself and the one after the first `i`
/// under the substitute with the counter `i`.
pub proof fn lemma_rounds_count_up(name: Seq<char>, taken: Set<Seq<char>>, i: nat)
    requires
        taken.finite(),
        forall|k: nat| !taken.contains(#[trigger] candidate(name, k)),
    ensures
        nth_counter(name, taken, i) == i,
        forall|s: Seq<char>| #[trigger]
            after_rounds(name, taken, i).contains(s) <==> taken.contains(s) || exists|c: nat|
                c < i && s == candidate(name, c),
    decreases i,
{
    let at_i = after_rounds(name, taken, i);
    if i > 0 {
        let before = (i - 1) as nat;
        lemma_rounds_count_up(name, taken, before);
        let was = after_rounds(name, taken, before);
        assert(at_i == was.insert(candidate(name, before)));
        assert forall|s: Seq<char>| #[trigger]
            at_i.contains(s) <==> taken.contains(s) || exists|c: nat|
                c < i && s == candidate(name, c) by {
            if at_i.contains(s) && !taken.contains(s) {
                if was.contains(s) {
                    let c = choose|c: nat| c < before && s == candidate(name, c);
                    assert(c < i && s == candidate(name, c));
                } else {
                    assert(before < i && s == candidate(name, before));
                }
            }
            if exists|c: nat| c < i && s == candidate(name, c) {
                let c = choose|c: nat| c < i && s == candidate(name, c);
                if c < before {
                    assert(was.contains(s));
                }
            }
        }
    }
    lemma_rounds_grow(name, taken, i, i);
    lemma_resolved_is_free(name, at_i);
    let ci = nth_counter(name, taken, i);
    if ci < i {
        assert(at_i.contains(candidate(name, ci)));
    }
    if ci > i {
        assert(at_i.contains(candidate(name, i)));
        let c = choose|c: nat| c < i && candidate(name, i) == candidate(name, c);
        lemma_candidate_injective(name, i, c);
    }
}

/// The names of a folder's files are finitely many, no more than the files.
pub proof fn lemma_names_of(files: Seq<String>)
    ensures
        names_of(files).finite(),
        names_of(files).len() <= files.len(),
{
    let names = files.map_values(|f: String| f@);
    names.lemma_cardinality_of_set();
    vstd::seq_lib::seq_to_set_is_finite(names);
}

/// Whether the folder holds a file of that name.
pub fn listed(files: &Vec<String>, name: &String) -> (found: bool)
    ensures
        found == names_of(files@).contains(name@),
{
    let ghost names = files@.map_values(|f: String| f@);
    let mut i: usize = 0;
    while i < files.len()
        invariant
            i <= files.len(),
            names == files@.map_values(|f: String| f@),
            forall|j: int| 0 <= j < i ==> names[j] != name@,
        decreases files.len() - i,
    {
        if files[i] == *name {
            assert(names[i as int] == name@);
            assert(names.contains(name@));
            return true;
        }
        i = i + 1;
    }
    assert(!names.contains(name@));
    false
}

/// Writes the `k`-th substitute for `name`.
pub fn dub(name: &String, k: u128) -> (text: String)
    ensures
        text@ == dubbed(name@, k as nat),
{
    proof {
        reveal_strlit("dubbed_");
        reveal_strlit("-");
    }
    let mut text = String::from_str("dubbed_");
    assert(text@ =~= dub_prefix());
    let digits = render(k);
    text.append(digits.as_str());
    text.append("-");
    text.append(name.as_str());
    assert(text@ =~= dubbed(name@, k as nat));
    text
}

/// The name under which a file called `name` enters a folder that holds
/// `files`, or `None` where its name is taken and renaming is not allowed.
pub fn resolve(name: &String, files: &Vec<String>, force: bool) -> (chosen: Option<String>)
    ensures
        match chosen {
            Some(n) => resolved_name(name@, names_of(files@), force) == Some(n@),
            None => resolved_name(name@, names_of(files@), force) is None,
        },
        chosen is Some ==> !names_of(files@).contains(chosen->0@),
{
    if !listed(files, name) {
        return Some(name.clone());
    }
    if !force {
        return None;
    }
    let ghost taken = names_of(files@);
    proof {
        lemma_names_of(files@);
    }
    let mut k: u128 = 1;
    let mut text = dub(name, k);
    while listed(files, &text)
        invariant
            taken == names_of(files@),
            taken.finite(),
            taken.len() <= files.len(),
            1 <= k <= files.len() + 1,
            text@ == dubbed(name@, k as nat),
            forall|j: nat| 1 <= j < k ==> taken.contains(#[trigger] dubbed(name@, j)),
        decreases files.len() + 1 - k,
    {
        proof {
            lemma_run_bound(name@, taken, (k + 1) as nat);
        }
        k = k + 1;
        text = dub(name, k);
    }
    proof {
        assert(is_first_free(name@, taken, k as nat));
        lemma_first_free_unique(name@, taken, k as nat);
    }
    Some(text)
}

} // verus!
