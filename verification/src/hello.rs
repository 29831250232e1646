use vstd::prelude::*;
use vstd::string::StringExecFns;

verus! {

/// The greeting that the hello endpoints answer with.
pub open spec fn greeting(name: Seq<char>) -> Seq<char> {
    "Hello, "@ + name + "!"@
}

/// Greets `name` as `Hello, {name}!`.
pub fn hello_message(name: &str) -> (message: String)
    ensures
        message@ == greeting(name@),
        message@.len() == name@.len() + 8,
        message@.subrange(7, name@.len() as int + 7) == name@,
{
    let mut message = String::from_str("Hello, ");
    message.append(name);
    message.append("!");
    proof {
        lemma_greeting_holds_the_name(name@);
    }
    message
}

/// Law: a greeting holds the whole name. It is the seven characters
/// `Hello, `, then exactly the name, then `!`, so it is eight characters
/// longer than the name.
pub proof fn lemma_greeting_holds_the_name(name: Seq<char>)
    ensures
        greeting(name).len() == name.len() + 8,
        greeting(name).subrange(0, 7) == seq!['H', 'e', 'l', 'l', 'o', ',', ' '],
        greeting(name).subrange(7, name.len() as int + 7) == name,
        greeting(name)[name.len() as int + 7] == '!',
{
    reveal_strlit("Hello, ");
    reveal_strlit("!");
    assert(greeting(name).subrange(0, 7) =~= seq!['H', 'e', 'l', 'l', 'o', ',', ' ']);
    assert(greeting(name).subrange(7, name.len() as int + 7) =~= name);
}

} // verus!
