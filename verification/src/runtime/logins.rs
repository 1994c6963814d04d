//! When a provider counts as logged in, what its environment is, and what is never shown.
use crate::runtime::credentials;
use crate::runtime::credentials::{
    AuthMode, AuthStatus, Authentication, EnvChangeView, NativeAuth, ProviderProfile,
};
use crate::text;
use vstd::prelude::*;

verus! {

/// A provider counts as authenticated exactly where it is logged in by itself and an API
/// key was not insisted on, or where a key variable is configured and set and a login was
/// not insisted on; the key is used only where the login is not.
pub proof fn law_logins_come_before_keys(
    s: AuthStatus,
    a: Authentication,
    profile: ProviderProfile,
    native_login: bool,
    key_is_set: bool,
)
    requires
        credentials::status_is(s, a, profile, native_login, key_is_set),
    ensures
        ({
            let by_login = a.mode != AuthMode::ApiKey && native_login;
            let by_key = a.mode != AuthMode::Native && a.api_key_env is Some && key_is_set;
            &&& s.authenticated <==> by_login || by_key
            &&& s.api_key_required <==> by_key && !by_login
            &&& !s.authenticated ==> s.guidance@ == profile.guidance@
        }),
{
}

/// A provider says that it is logged in exactly where its status command succeeded and,
/// where its output is read, the output is of bounded size and says so.
pub proof fn law_logins_are_what_the_provider_says(
    profile: ProviderProfile,
    success: bool,
    size: nat,
    document: Result<Option<bool>, ()>,
)
    ensures
        credentials::login_of(profile, success, size, document) == Ok::<bool, Seq<char>>(true)
            <==> success && (profile.unreadable_status is None || (size <= 8192 && document == Ok::<
            Option<bool>,
            (),
        >(Some(true)))),
        credentials::login_of(profile, success, size, document) is Err <==> success
            && profile.unreadable_status is Some && (size > 8192 || document is Err),
{
}

/// A key has to be configured where it is insisted on, under a name of capitals, digits
/// and underscores.
pub proof fn law_key_variables_are_named(a: Authentication)
    ensures
        credentials::authentication_refusal(a) is None <==> {
            &&& a.mode == AuthMode::ApiKey ==> a.api_key_env is Some
            &&& a.api_key_env is Some ==> {
                let name = a.api_key_env->0@;
                &&& 0 < name.len()
                &&& text::size(name) <= 128
                &&& forall|n: int|
                    0 <= n < name.len() ==> ('A' <= #[trigger] name[n] && name[n] <= 'Z') || ('0'
                        <= name[n] && name[n] <= '9') || name[n] == '_'
            }
        },
{
    if a.api_key_env is Some {
        let name = a.api_key_env->0@;
        if credentials::is_variable_name(name) {
            assert forall|n: int| 0 <= n < name.len() implies ('A' <= #[trigger] name[n] && name[n]
                <= 'Z') || ('0' <= name[n] && name[n] <= '9') || name[n] == '_' by {
                assert(credentials::is_variable_char(name[n]));
            }
        } else if 0 < name.len() && text::size(name) <= 128 {
            let n = choose|n: int|
                0 <= n < name.len() && !credentials::is_variable_char(#[trigger] name[n]);
            assert(!(('A' <= name[n] && name[n] <= 'Z') || ('0' <= name[n] && name[n] <= '9')
                || name[n] == '_'));
        }
    }
}

/// A native login runs in the user's home. The variable of the provider's own directory
/// is set where the provider is told it or it was moved, and taken away where not.
pub proof fn law_native_logins_run_at_home(
    auth: NativeAuth,
    profile: ProviderProfile,
    user: Option<String>,
    logname: Option<String>,
)
    ensures
        ({
            let all = credentials::login_environment(auth, profile, user, logname);
            let told = profile.names_home || auth.config_override;
            &&& all.len() >= 2
            &&& all[0] == EnvChangeView::Assign("HOME"@, auth.home@)
            &&& told ==> all[all.len() - 1] == EnvChangeView::Assign(
                profile.home_variable@,
                auth.provider_home@,
            )
            &&& !told ==> all[all.len() - 1] == EnvChangeView::Remove(profile.home_variable@)
            &&& all.len() == 2 + (if user is Some {
                1int
            } else {
                0
            }) + (if logname is Some {
                1int
            } else {
                0
            })
            &&& user is Some ==> all[1] == EnvChangeView::Assign("USER"@, user->0@)
            &&& logname is Some ==> all[all.len() - 2] == EnvChangeView::Assign(
                "LOGNAME"@,
                logname->0@,
            )
        }),
{
}

/// Whether a character ends a word: white space, a quote, a backslash, a comma or a brace.
pub open spec fn parts(c: char) -> bool {
    text::is_space(c) || c == '"' || c == '\'' || c == '\\' || c == ',' || c == '}'
}

proof fn lemma_word(so_far: Seq<char>, word: Seq<char>, c: char, rest: Seq<char>)
    requires
        forall|n: int| 0 <= n < word.len() ==> !parts(#[trigger] word[n]),
        parts(c),
    ensures
        credentials::redacted_from(so_far, word + seq![c] + rest) == credentials::shown_word(
            so_far + word + seq![c],
        ) + credentials::redacted_from(Seq::empty(), rest),
    decreases word.len(),
{
    let all = word + seq![c] + rest;
    if word.len() == 0 {
        assert(all[0] == c);
        assert(all.drop_first() =~= rest);
        assert(so_far.push(c) =~= so_far + word + seq![c]);
    } else {
        assert(all[0] == word[0]);
        assert(!parts(word[0]));
        let tail = word.drop_first();
        assert forall|n: int| 0 <= n < tail.len() implies !parts(#[trigger] tail[n]) by {
            assert(tail[n] == word[n + 1]);
        }
        lemma_word(so_far.push(word[0]), tail, c, rest);
        assert(all.drop_first() =~= tail + seq![c] + rest);
        assert(so_far.push(word[0]) + tail + seq![c] =~= so_far + word + seq![c]);
    }
}

/// Text is redacted word by word: a word that holds the start of a key, or the start of a
/// token and more than 24 bytes, is not shown, and any other word is shown as it stands.
pub proof fn law_redaction_goes_word_by_word(word: Seq<char>, c: char, rest: Seq<char>)
    requires
        forall|n: int| 0 <= n < word.len() ==> !parts(#[trigger] word[n]),
        parts(c),
    ensures
        ({
            let own = word + seq![c];
            let hidden = text::occurs(own, "sk-"@) || (text::occurs(own, "eyJ"@) && text::size(own)
                > 24);
            credentials::redacted(own + rest) == (if hidden {
                "[REDACTED]"@
            } else {
                own
            }) + credentials::redacted(rest)
        }),
{
    lemma_word(Seq::empty(), word, c, rest);
    assert(Seq::<char>::empty() + word + seq![c] =~= word + seq![c]);
}

} // verus!
