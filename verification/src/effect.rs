use vstd::prelude::*;

verus! {

/// What an evaluation raises instead of a value.
#[derive(Debug, PartialEq)]
pub enum Effect {
    Error(String),
}

impl View for Effect {
    type V = Seq<char>;

    open spec fn view(&self) -> Seq<char> {
        match self {
            Effect::Error(m) => m@,
        }
    }
}

/// An error effect with `message`.
pub fn error(message: &str) -> (e: Effect)
    ensures
        e@ == message@,
{
    Effect::Error(message.to_string())
}

impl Effect {
    /// The written form of the effect.
    pub fn to_string(&self) -> (s: String)
        ensures
            s@ == "#effect::error("@ + self@ + ")"@,
    {
        match self {
            Effect::Error(m) => {
                let mut s = String::new();
                crate::printer::push_all(&mut s, "#effect::error(");
                crate::printer::push_all(&mut s, m.as_str());
                crate::printer::push_all(&mut s, ")");
                s
            },
        }
    }

    /// A copy of the effect.
    pub fn clone(&self) -> (r: Effect)
        ensures
            r@ == self@,
    {
        match self {
            Effect::Error(m) => Effect::Error(m.clone()),
        }
    }
}

} // verus!
