//! Rewording of a user's request before it is sent to the oracle.

use vstd::prelude::*;

verus! {

/// `s` with every match of `from`, taken from the left without overlap,
/// replaced by `to`.
pub open spec fn replace_all(s: Seq<char>, from: Seq<char>, to: Seq<char>) -> Seq<char>
    decreases s.len(),
{
    if from.len() == 0 || s.len() < from.len() {
        s
    } else if s.take(from.len() as int) == from {
        to + replace_all(s.skip(from.len() as int), from, to)
    } else {
        seq![s[0]] + replace_all(s.skip(1), from, to)
    }
}

/// The abbreviations of weekday names that are spelled out as weeks.
pub open spec fn day_prefixes() -> Seq<Seq<char>> {
    seq![
        "mon"@,
        "tue"@,
        "wed"@,
        "thu"@,
        "fri"@,
        "sat"@,
        "sun"@,
        "Mon"@,
        "Tue"@,
        "Wed"@,
        "Thu"@,
        "Fri"@,
        "Sat"@,
        "Sun"@,
    ]
}

/// "next p..." becomes "next week on p...", and "this p..." "this week on p...".
pub open spec fn expand_day(s: Seq<char>, p: Seq<char>) -> Seq<char> {
    let once = replace_all(s, "next "@ + p, "next week on "@ + p);
    replace_all(once, "this "@ + p, "this week on "@ + p)
}

/// `expand_day` applied for each of `ps` in turn.
pub open spec fn expand_days(s: Seq<char>, ps: Seq<Seq<char>>) -> Seq<char>
    decreases ps.len(),
{
    if ps.len() == 0 {
        s
    } else {
        expand_day(expand_days(s, ps.drop_last()), ps.last())
    }
}

/// Relies on `str::replace`: all matches of `from`, found from the left
/// without overlap, are replaced by `to`.
#[verifier::external_body]
fn replace(s: &str, from: &str, to: &str) -> (r: String)
    requires
        from@.len() > 0,
    ensures
        r@ == replace_all(s@, from@, to@),
{
    s.replace(from, to)
}

/// Spells out "next mon..." as "next week on mon..." and "this tue..." as
/// "this week on tue...", for each weekday abbreviation in either case of its
/// first letter, which the oracle reads more reliably.
pub fn basic_improve_user_prompt(user_prompt: String) -> (r: String)
    ensures
        r@ == expand_days(user_prompt@, day_prefixes()),
{
    let prefixes: Vec<&str> = vec![
        "mon",
        "tue",
        "wed",
        "thu",
        "fri",
        "sat",
        "sun",
        "Mon",
        "Tue",
        "Wed",
        "Thu",
        "Fri",
        "Sat",
        "Sun",
    ];
    proof {
        reveal_strlit("next ");
        reveal_strlit("this ");
    }
    assert(forall|k: int| 0 <= k < prefixes.len() ==> (#[trigger] prefixes[k])@ == day_prefixes()[k]);
    let mut out = user_prompt;
    let mut i: usize = 0;
    while i < prefixes.len()
        invariant
            prefixes.len() == day_prefixes().len(),
            forall|k: int| 0 <= k < prefixes.len() ==> (#[trigger] prefixes[k])@ == day_prefixes()[k],
            0 <= i <= prefixes.len(),
            out@ == expand_days(user_prompt@, day_prefixes().take(i as int)),
            "next "@.len() == 5,
            "this "@.len() == 5,
        decreases prefixes.len() - i,
    {
        let p = prefixes[i];
        let next_from = "next ".to_owned().concat(p);
        let next_to = "next week on ".to_owned().concat(p);
        let this_from = "this ".to_owned().concat(p);
        let this_to = "this week on ".to_owned().concat(p);
        let once = replace(out.as_str(), next_from.as_str(), next_to.as_str());
        out = replace(once.as_str(), this_from.as_str(), this_to.as_str());
        assert(day_prefixes().take(i + 1).drop_last() =~= day_prefixes().take(i as int));
        i = i + 1;
    }
    assert(day_prefixes().take(prefixes.len() as int) =~= day_prefixes());
    out
}

} // verus!
