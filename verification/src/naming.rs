//! Names for saved attachments. A proposed name comes from the sender of the
//! message and is not trusted: one that could lead out of the output
//! directory is refused, and one that is already in use there gets a numeric
//! prefix, so that no existing file is ever overwritten.

use crate::decimal::{
    decimal, decimal_string, is_digit, lemma_decimal_injective, lemma_decimal_is_digits,
};
use vstd::prelude::*;
use vstd::string::StringExecFns;

verus! {

broadcast use vstd::string::group_string_axioms;

/// Whether `c` separates the components of a path.
pub open spec fn is_separator(c: char) -> bool {
    c == '/' || c == '\\'
}

/// Whether `name` names an entry directly inside a directory: it is not
/// empty, holds no path separator, and is neither `.` nor `..`.
pub open spec fn safe_name(name: Seq<char>) -> bool {
    &&& name.len() > 0
    &&& name != seq!['.']
    &&& name != seq!['.', '.']
    &&& forall|i: int| 0 <= i < name.len() ==> !is_separator(#[trigger] name[i])
}

/// The names that a directory listing holds.
pub open spec fn names_of(dir: Seq<String>) -> Seq<Seq<char>> {
    dir.map_values(|entry: String| entry@)
}

/// The `attempt`-th name tried for the proposed name `base`: first `base`
/// itself, then `0-base`, `1-base` and so on.
pub open spec fn candidate(base: Seq<char>, attempt: nat) -> Seq<char> {
    if attempt == 0 {
        base
    } else {
        decimal((attempt - 1) as nat) + seq!['-'] + base
    }
}

/// Whether `attempt` is the first attempt whose name is not in `taken`.
pub open spec fn first_free(taken: Seq<Seq<char>>, base: Seq<char>, attempt: nat) -> bool {
    &&& !taken.contains(candidate(base, attempt))
    &&& forall|earlier: nat| earlier < attempt ==> taken.contains(#[trigger] candidate(base, earlier))
}

/// Different attempts give different names.
pub proof fn lemma_candidate_injective(base: Seq<char>, a: nat, b: nat)
    requires
        candidate(base, a) == candidate(base, b),
    ensures
        a == b,
{
    if a > 0 && b > 0 {
        let x = decimal((a - 1) as nat);
        let y = decimal((b - 1) as nat);
        let whole = candidate(base, a);
        assert(whole.len() == x.len() + 1 + base.len());
        assert(whole.len() == y.len() + 1 + base.len());
        assert(whole.subrange(0, x.len() as int) =~= x);
        assert(whole.subrange(0, y.len() as int) =~= y);
        lemma_decimal_injective((a - 1) as nat, (b - 1) as nat);
    } else if a > 0 {
        assert(candidate(base, a).len() == decimal((a - 1) as nat).len() + 1 + base.len());
    } else if b > 0 {
        assert(candidate(base, b).len() == decimal((b - 1) as nat).len() + 1 + base.len());
    }
}

/// At most one attempt is the first free one.
pub proof fn lemma_first_free_unique(taken: Seq<Seq<char>>, base: Seq<char>, a: nat, b: nat)
    requires
        first_free(taken, base, a),
        first_free(taken, base, b),
    ensures
        a == b,
{
    if a < b {
        assert(taken.contains(candidate(base, a)));
    } else if b < a {
        assert(taken.contains(candidate(base, b)));
    }
}

/// Where the names of the first `count` attempts are all taken, the listing
/// holds at least `count` names.
proof fn lemma_taken_attempts_fit(taken: Seq<Seq<char>>, base: Seq<char>, count: nat)
    requires
        forall|attempt: nat| attempt < count ==> taken.contains(#[trigger] candidate(base, attempt)),
    ensures
        count <= taken.len(),
{
    let tried = Seq::new(count, |attempt: int| candidate(base, attempt as nat));
    assert forall|i: int, j: int| 0 <= i < tried.len() && 0 <= j < tried.len() && i != j implies tried[i]
        != tried[j] by {
        if tried[i] == tried[j] {
            lemma_candidate_injective(base, i as nat, j as nat);
        }
    }
    tried.unique_seq_to_set();
    taken.lemma_cardinality_of_set();
    assert(tried.to_set().subset_of(taken.to_set())) by {
        assert forall|name: Seq<char>| tried.to_set().contains(name) implies taken.to_set().contains(
            name,
        ) by {
            let i = choose|i: int| 0 <= i < tried.len() && tried[i] == name;
            assert(taken.contains(candidate(base, i as nat)));
        }
    }
    vstd::set_lib::lemma_len_subset(tried.to_set(), taken.to_set());
}

/// The name under which a file proposed as `base` is saved beside the names
/// `taken`: that of the first attempt that is free.
pub open spec fn unique_name(taken: Seq<Seq<char>>, base: Seq<char>) -> Seq<char> {
    candidate(base, choose|attempt: nat| first_free(taken, base, attempt))
}

proof fn lemma_first_free_from(taken: Seq<Seq<char>>, base: Seq<char>, from: nat)
    requires
        forall|earlier: nat| earlier < from ==> taken.contains(#[trigger] candidate(base, earlier)),
    ensures
        exists|attempt: nat| first_free(taken, base, attempt),
    decreases taken.len() - from,
{
    if taken.contains(candidate(base, from)) {
        lemma_taken_attempts_fit(taken, base, from + 1);
        lemma_first_free_from(taken, base, from + 1);
    } else {
        assert(first_free(taken, base, from));
    }
}

/// Some attempt is always free, so the name that is picked is new to the
/// listing, and every name tried before it is in use.
pub proof fn lemma_unique_name_is_first_free(taken: Seq<Seq<char>>, base: Seq<char>)
    ensures
        exists|attempt: nat|
            first_free(taken, base, attempt) && unique_name(taken, base) == #[trigger] candidate(
                base,
                attempt,
            ),
        !taken.contains(unique_name(taken, base)),
{
    lemma_first_free_from(taken, base, 0);
    let attempt = choose|attempt: nat| first_free(taken, base, attempt);
    assert(unique_name(taken, base) == candidate(base, attempt));
}

/// A safe name stays safe under every attempt's prefix.
pub proof fn lemma_candidate_is_safe(base: Seq<char>, attempt: nat)
    requires
        safe_name(base),
    ensures
        safe_name(candidate(base, attempt)),
{
    if attempt > 0 {
        let digits = decimal((attempt - 1) as nat);
        let name = candidate(base, attempt);
        lemma_decimal_is_digits((attempt - 1) as nat);
        assert(name.len() == digits.len() + 1 + base.len());
        assert(name.len() >= 3);
        assert forall|i: int| 0 <= i < name.len() implies !is_separator(#[trigger] name[i]) by {
            if i < digits.len() {
                assert(name[i] == digits[i]);
                assert(is_digit(digits[i]));
            } else if i == digits.len() {
                assert(name[i] == '-');
            } else {
                assert(name[i] == base[i - digits.len() - 1]);
            }
        }
    }
}

/// Tells whether a proposed name may be joined to the output directory.
pub fn is_safe_name(name: &str) -> (safe: bool)
    ensures
        safe == safe_name(name@),
{
    let mut seen: u8 = 0;
    let mut only_dots = true;
    let mut separated = false;
    for c in it: name.chars()
        invariant
            it.seq() == name@,
            seen == if it.index() < 3 { it.index() } else { 3 },
            only_dots == (forall|i: int| 0 <= i < it.index() ==> name@[i] == '.'),
            separated == (exists|i: int| 0 <= i < it.index() && is_separator(name@[i])),
    {
        if seen < 3 {
            seen = seen + 1;
        }
        if c != '.' {
            only_dots = false;
        }
        if c == '/' || c == '\\' {
            separated = true;
        }
    }
    proof {
        if only_dots && seen == 1 {
            assert(name@ =~= seq!['.']);
        }
        if only_dots && seen == 2 {
            assert(name@ =~= seq!['.', '.']);
        }
        if name@ == seq!['.'] || name@ == seq!['.', '.'] {
            assert(only_dots);
        }
    }
    seen > 0 && !separated && !(only_dots && seen <= 2)
}

/// Builds the name of the given attempt for the proposed name `base`.
pub fn candidate_name(base: &str, attempt: usize) -> (name: String)
    ensures
        name@ == candidate(base@, attempt as nat),
{
    if attempt == 0 {
        base.to_owned()
    } else {
        let mut name = decimal_string((attempt - 1) as u64);
        name.append("-");
        name.append(base);
        proof {
            reveal_strlit("-");
            assert(name@ =~= candidate(base@, attempt as nat));
        }
        name
    }
}

/// Tells whether the listing `dir` holds `name`.
pub fn name_taken(dir: &Vec<String>, name: &String) -> (taken: bool)
    ensures
        taken == names_of(dir@).contains(name@),
{
    let mut i: usize = 0;
    while i < dir.len()
        invariant
            i <= dir.len(),
            forall|j: int| 0 <= j < i ==> names_of(dir@)[j] != name@,
        decreases dir.len() - i,
    {
        if dir[i] == *name {
            assert(names_of(dir@)[i as int] == name@);
            return true;
        }
        i = i + 1;
    }
    false
}

/// Picks the name under which an attachment proposed as `base_filename` is
/// saved in a directory that holds the entries `dir`: the proposed name where
/// it is free, else the first of `0-name`, `1-name`, ... that is. A proposed
/// name that is not safe is refused.
pub fn make_unique_file(dir: &Vec<String>, base_filename: &str) -> (chosen: Option<String>)
    ensures
        chosen is Some <==> safe_name(base_filename@),
        chosen matches Some(name) ==> name@ == unique_name(names_of(dir@), base_filename@),
{
    if !is_safe_name(base_filename) {
        return None;
    }
    let ghost taken = names_of(dir@);
    let mut attempt: usize = 0;
    loop
        invariant
            safe_name(base_filename@),
            taken == names_of(dir@),
            attempt <= dir.len(),
            forall|earlier: nat|
                earlier < attempt ==> taken.contains(#[trigger] candidate(base_filename@, earlier)),
        decreases dir.len() - attempt,
    {
        let name = candidate_name(base_filename, attempt);
        if !name_taken(dir, &name) {
            proof {
                assert(first_free(taken, base_filename@, attempt as nat));
                let picked = choose|picked: nat| first_free(taken, base_filename@, picked);
                lemma_first_free_unique(taken, base_filename@, picked, attempt as nat);
            }
            return Some(name);
        }
        proof {
            lemma_taken_attempts_fit(taken, base_filename@, (attempt + 1) as nat);
        }
        attempt = attempt + 1;
    }
}

} // verus!
