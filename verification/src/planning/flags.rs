//! What the words after a planning command mean.
use crate::planning::cli;
use crate::planning::cli::PlanCommand;
use crate::text;
use vstd::prelude::*;

verus! {

/// Whether a flag stands at a place where flags stand, and not before.
pub open spec fn is_given(args: Seq<Seq<char>>, name: Seq<char>, j: int) -> bool {
    &&& 0 <= j
    &&& j + 1 < args.len()
    &&& j % 2 == 0
    &&& args[j] == name
    &&& forall|m: int| 0 <= m < j && m % 2 == 0 ==> #[trigger] args[m] != name
}

proof fn lemma_flag(args: Seq<Seq<char>>, name: Seq<char>, i: int) -> (j: int)
    requires
        0 <= i,
        i % 2 == 0,
    ensures
        match cli::flag_at(args, name, i) {
            Some(v) => {
                &&& i <= j
                &&& j + 1 < args.len()
                &&& j % 2 == 0
                &&& args[j] == name
                &&& args[j + 1] == v
                &&& forall|m: int| i <= m < j && m % 2 == 0 ==> #[trigger] args[m] != name
            },
            None => forall|m: int|
                i <= m && m + 1 < args.len() && m % 2 == 0 ==> #[trigger] args[m] != name,
        },
    decreases args.len() - i,
{
    if i + 1 >= args.len() || args[i] == name {
        i
    } else {
        let j = lemma_flag(args, name, i + 2);
        assert forall|m: int| i <= m < i + 2 && m % 2 == 0 implies #[trigger] args[m] != name by {
            assert(m == i);
        }
        j
    }
}

/// The value of a flag is the word behind it, where it stands first; words that are values
/// are no flags.
pub proof fn law_flags_have_the_word_behind_them(args: Seq<Seq<char>>, name: Seq<char>, j: int)
    ensures
        is_given(args, name, j) ==> cli::flag_at(args, name, 0) == Some(args[j + 1]),
        cli::flag_at(args, name, 0) is None <==> forall|m: int|
            0 <= m && m + 1 < args.len() && m % 2 == 0 ==> #[trigger] args[m] != name,
{
    let k = lemma_flag(args, name, 0);
    if is_given(args, name, j) {
        assert(args[j] == name);
        if cli::flag_at(args, name, 0) is Some {
            assert(k == j) by {
                if k < j {
                    assert(args[k] != name);
                } else if j < k {
                    assert(args[j] != name);
                }
            }
        }
    }
    if cli::flag_at(args, name, 0) is Some {
        assert(args[k] == name);
    }
}

proof fn lemma_flags(args: Seq<Seq<char>>, i: int, n: int)
    requires
        0 <= i <= n,
        i % 2 == 0,
        n % 2 == 0,
        n + 1 < args.len(),
        cli::flags_refusal(args, i) is None,
    ensures
        cli::is_prepare_flag(args[n]),
        forall|m: int| 0 <= m < n && m % 2 == 0 ==> #[trigger] args[m] != args[n],
    decreases n - i,
{
    if i < n {
        lemma_flags(args, i + 2, n);
    } else {
        assert(!cli::flag_repeated(args, i));
    }
}

/// A request is prepared from pairs of a flag and its value, each flag known and given
/// once.
pub proof fn law_prepare_takes_known_flags_once(args: Seq<Seq<char>>, n: int)
    requires
        cli::prepare_refusal(args) is None,
    ensures
        args.len() % 2 == 0,
        cli::objectives(args) == 1,
        0 <= n < args.len() && n % 2 == 0 ==> cli::is_prepare_flag(args[n]) && forall|m: int|
            0 <= m < n && m % 2 == 0 ==> #[trigger] args[m] != args[n],
{
    if 0 <= n < args.len() && n % 2 == 0 {
        assert(n + 1 < args.len());
        lemma_flags(args, 0, n);
    }
}

/// A limit that is given is the number that was written, and one that is not is the
/// default.
pub proof fn law_limits_are_what_was_written(given: Option<String>, limit: usize, n: nat)
    ensures
        given is None ==> cli::limit_value(given, limit) == Some(limit as nat),
        given is Some && given->0@ == text::digits(n) && n <= usize::MAX ==> cli::limit_value(
            given,
            limit,
        ) == Some(n),
{
    text::law_written_numbers_are_read_back(n, usize::MAX as nat);
}

/// Checks are chosen where the request names none and they are given, where it names
/// some, or where only one is declared.
pub proof fn law_checks_are_chosen_once(
    given: bool,
    verify: Option<String>,
    declared: Seq<Seq<char>>,
)
    ensures
        cli::verification_refusal(given, verify, declared) is None <==> {
            ||| verify is Some && !given
            ||| verify is None && given
            ||| verify is None && declared.len() == 1
        },
{
}

proof fn lemma_solid(parts: Seq<Seq<char>>, i: int, n: int, key: Seq<char>)
    requires
        0 <= i,
    ensures
        ({
            let all = cli::solid_texts(parts, i);
            &&& i <= n < parts.len() && text::trimmed(parts[n]).len() > 0 ==> all.contains(
                text::trimmed(parts[n]),
            )
            &&& all.contains(key) ==> key.len() > 0 && exists|m: int|
                i <= m < parts.len() && text::trimmed(#[trigger] parts[m]) == key
        }),
    decreases parts.len() - i,
{
    if i < parts.len() {
        lemma_solid(parts, i + 1, n, key);
        let one = text::trimmed(parts[i]);
        let rest = cli::solid_texts(parts, i + 1);
        if one.len() > 0 {
            text::lemma_sum_contains(seq![one], rest, key);
            assert(seq![one][0] == one);
            if i <= n < parts.len() {
                text::lemma_sum_contains(seq![one], rest, text::trimmed(parts[n]));
            }
        }
    }
}

/// The checks that are chosen are the parts between commas, without the space around
/// them, and empty parts choose nothing.
pub proof fn law_chosen_checks_stand_between_commas(keys: Seq<char>, n: int, key: Seq<char>)
    ensures
        ({
            let parts = text::pieces(keys, ',');
            &&& 0 <= n < parts.len() && text::trimmed(parts[n]).len() > 0 ==> cli::verify_keys(
                keys,
            ).contains(text::trimmed(parts[n]))
            &&& cli::verify_keys(keys).contains(key) ==> key.len() > 0 && exists|m: int|
                0 <= m < parts.len() && text::trimmed(#[trigger] parts[m]) == key
        }),
{
    lemma_solid(text::pieces(keys, ','), 0, n, key);
}

/// Superseding names the replacement and cancelling the reason; every other command takes
/// the plan alone.
pub proof fn law_plan_commands_take_what_they_need(
    word: Seq<char>,
    args: Seq<Seq<char>>,
    id_rule: Option<String>,
)
    ensures
        cli::command_refusal(word, args, id_rule) is None <==> {
            &&& args.len() > 0
            &&& id_rule is None
            &&& cli::command_of(word) is Some
            &&& cli::command_of(word) == Some(PlanCommand::Supersede) ==> args.len() == 3
                && args[1] == "--with"@
            &&& cli::command_of(word) == Some(PlanCommand::Cancel) ==> args.len() == 3 && args[1]
                == "--reason"@
            &&& cli::command_of(word) != Some(PlanCommand::Supersede) && cli::command_of(word)
                != Some(PlanCommand::Cancel) ==> args.len() == 1
        },
{
}

} // verus!
