use vstd::prelude::*;
use vstd::string::*;

verus! {

/// The token that matches every name.
pub open spec fn wild_card() -> Seq<char> {
    seq!['*']
}

/// Two simple names match when they are equal or either one is the wild card.
pub open spec fn tag_name_matches(test: Seq<char>, against: Seq<char>) -> bool {
    test == against || test == wild_card() || against == wild_card()
}

/// A namespaced name (`test_ns`, `test_local`) matches (`against_ns`, `against_local`)
/// when the local names match and the namespaces do: a name without a namespace
/// only matches the wild-card namespace.
pub open spec fn namespaced_name_matches(
    test_ns: Option<Seq<char>>,
    test_local: Seq<char>,
    against_ns: Seq<char>,
    against_local: Seq<char>,
) -> bool {
    let locals = tag_name_matches(test_local, against_local);
    match test_ns {
        None => against_ns == wild_card() && locals,
        Some(ns) => tag_name_matches(ns, against_ns) && locals,
    }
}

/// The wild card as an owned string.
pub(crate) fn wild_card_string() -> (w: String)
    ensures
        w@ == wild_card(),
{
    let w = "*".to_string();
    proof {
        reveal_strlit("*");
        assert(w@ =~= wild_card());
    }
    w
}

pub fn tag_name_match(test: &String, against: &String) -> (res: bool)
    ensures
        res == tag_name_matches(test@, against@),
{
    let wild = wild_card_string();
    *test == *against || *test == wild || *against == wild
}

pub fn namespaced_name_match(
    test_ns: &Option<String>,
    test_local: &String,
    against_ns: &String,
    against_local: &String,
) -> (res: bool)
    ensures
        res == namespaced_name_matches(
            match test_ns {
                Some(ns) => Some(ns@),
                None => None,
            },
            test_local@,
            against_ns@,
            against_local@,
        ),
{
    let wild = wild_card_string();
    match test_ns {
        None => *against_ns == wild && tag_name_match(test_local, against_local),
        Some(ns) => tag_name_match(ns, against_ns) && tag_name_match(test_local, against_local),
    }
}

} // verus!
