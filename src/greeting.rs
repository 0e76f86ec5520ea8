use vstd::prelude::*;
use vstd::string::StringExecFns;

verus! {

/// Text that comes before the name in a greeting.
pub open spec fn greeting_prefix() -> Seq<char> {
    "Hello, "@
}

/// Text that comes after the name in a greeting.
pub open spec fn greeting_suffix() -> Seq<char> {
    "! You've been greeted from Rust!"@
}

/// The greeting for `name`: the name, verbatim, between a fixed prefix and suffix.
pub open spec fn greeting_of(name: Seq<char>) -> Seq<char> {
    greeting_prefix() + name + greeting_suffix()
}

/// Builds the greeting that the front-end shows for `name`.
pub fn greet(name: &str) -> (r: String)
    ensures
        r@ == greeting_of(name@),
{
    let mut r = String::from_str("Hello, ");
    r.append(name);
    r.append("! You've been greeted from Rust!");
    r
}

/// A greeting holds the name verbatim, right after the prefix.
pub proof fn lemma_greeting_contains_name(name: Seq<char>)
    ensures
        greeting_of(name).subrange(
            greeting_prefix().len() as int,
            (greeting_prefix().len() + name.len()) as int,
        ) == name,
{
    assert(greeting_of(name).subrange(
        greeting_prefix().len() as int,
        (greeting_prefix().len() + name.len()) as int,
    ) =~= name);
}

} // verus!
