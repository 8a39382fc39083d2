//! Configuration errors: a message and, behind it, the messages of its causes.

use vstd::prelude::*;

verus! {

/// Why configuration was refused: messages from the outermost context to the root cause.
#[derive(Debug)]
pub struct ConfigError {
    chain: Vec<String>,
}

impl View for ConfigError {
    type V = Seq<Seq<char>>;

    closed spec fn view(&self) -> Seq<Seq<char>> {
        self.chain@.map_values(|message: String| message@)
    }
}

impl ConfigError {
    #[verifier::type_invariant]
    closed spec fn well_formed(self) -> bool {
        self.chain@.len() > 0
    }

    /// An error without a further cause.
    pub fn msg(message: String) -> (error: ConfigError)
        ensures
            error@ == seq![message@],
    {
        let mut chain: Vec<String> = Vec::new();
        chain.push(message);
        let error = ConfigError { chain };
        assert(error@ =~= seq![message@]);
        error
    }

    /// The same error, seen from an outer context.
    pub fn context(self, message: String) -> (error: ConfigError)
        ensures
            error@ == seq![message@] + self@,
    {
        let mut chain: Vec<String> = self.chain;
        chain.insert(0, message);
        let error = ConfigError { chain };
        assert(error@ =~= seq![message@] + self@);
        error
    }

    /// The outermost message.
    pub fn message(&self) -> (message: &str)
        ensures
            self@.len() > 0,
            message@ == self@[0],
    {
        proof {
            use_type_invariant(self);
        }
        self.chain[0].as_str()
    }

    /// All messages, from the outermost context to the root cause.
    pub fn messages(&self) -> (messages: &Vec<String>)
        ensures
            messages@.len() == self@.len(),
            forall|i: int| 0 <= i < self@.len() ==> (#[trigger] messages@[i])@ == self@[i],
    {
        &self.chain
    }
}

} // verus!
