//! Models that can be asked for a completion, and the personas that select one.

use vstd::prelude::*;

use crate::text::str_eq;

verus! {

/// A remote completion model.
#[derive(Clone, Copy, Debug, PartialEq, Eq, Structural, Hash)]
pub enum LlmModel {
    GPT4,
    GPT35Turbo,
}

impl LlmModel {
    /// The number of tokens that fit in one request to the model.
    pub open spec fn spec_max_context(self) -> nat {
        match self {
            LlmModel::GPT35Turbo => 4096,
            LlmModel::GPT4 => 8192,
        }
    }

    /// The name by which the remote endpoint and the store know the model.
    pub open spec fn spec_label(self) -> Seq<char> {
        match self {
            LlmModel::GPT4 => "gpt-4"@,
            LlmModel::GPT35Turbo => "gpt-3.5-turbo"@,
        }
    }

    /// The model that a name stands for, if it names one.
    pub open spec fn spec_from_label(label: Seq<char>) -> Option<LlmModel> {
        if label == "gpt-4"@ {
            Some(LlmModel::GPT4)
        } else if label == "gpt-3.5-turbo"@ {
            Some(LlmModel::GPT35Turbo)
        } else {
            None
        }
    }

    /// The number of tokens that fit in one request to the model.
    pub fn max_context(&self) -> (n: usize)
        ensures
            n == self.spec_max_context(),
    {
        match self {
            LlmModel::GPT35Turbo => 4_096,
            LlmModel::GPT4 => 8_192,
        }
    }

    /// The name by which the remote endpoint and the store know the model.
    pub fn label(&self) -> (s: String)
        ensures
            s@ == self.spec_label(),
    {
        match self {
            LlmModel::GPT4 => "gpt-4".to_owned(),
            LlmModel::GPT35Turbo => "gpt-3.5-turbo".to_owned(),
        }
    }

    /// The model that a name stands for; `None` for any other text.
    pub fn from_label(label: &str) -> (r: Option<LlmModel>)
        ensures
            r == LlmModel::spec_from_label(label@),
    {
        if str_eq(label, "gpt-4") {
            Some(LlmModel::GPT4)
        } else if str_eq(label, "gpt-3.5-turbo") {
            Some(LlmModel::GPT35Turbo)
        } else {
            None
        }
    }
}

impl Default for LlmModel {
    fn default() -> (m: LlmModel)
        ensures
            m == LlmModel::GPT4,
    {
        LlmModel::GPT4
    }
}

/// Every model is found again by its own name.
pub proof fn lemma_label_round_trip(m: LlmModel)
    ensures
        LlmModel::spec_from_label(m.spec_label()) == Some(m),
{
    reveal_strlit("gpt-4");
    reveal_strlit("gpt-3.5-turbo");
    assert("gpt-4"@.len() != "gpt-3.5-turbo"@.len());
}

/// A persona: a named system prompt with the model it talks to and the colour
/// its replies are shown in.
#[derive(Clone, Debug, PartialEq, Eq, Hash)]
pub struct PromptSetting {
    pub label: String,
    pub prompt: String,
    pub model: LlmModel,
    pub color: Option<String>,
}

/// What a persona is, by the text of its parts.
pub struct PromptModel {
    pub label: Seq<char>,
    pub prompt: Seq<char>,
    pub model: LlmModel,
    pub color: Option<Seq<char>>,
}

impl View for PromptSetting {
    type V = PromptModel;

    open spec fn view(&self) -> PromptModel {
        PromptModel {
            label: self.label@,
            prompt: self.prompt@,
            model: self.model,
            color: match self.color {
                Some(c) => Some(c@),
                None => None,
            },
        }
    }
}

impl PromptSetting {
    /// The persona that is used where none is chosen.
    pub open spec fn spec_default() -> PromptModel {
        PromptModel {
            label: "Assistant"@,
            prompt: "You are a helpful assistant"@,
            model: LlmModel::GPT4,
            color: None,
        }
    }

    /// A copy of the persona.
    pub fn duplicate(&self) -> (p: PromptSetting)
        ensures
            p@ == self@,
    {
        PromptSetting {
            label: self.label.clone(),
            prompt: self.prompt.clone(),
            model: self.model,
            color: match &self.color {
                Some(c) => Some(c.clone()),
                None => None,
            },
        }
    }

    /// The name of the colour, if one is set.
    pub fn color(&self) -> (r: Option<&str>)
        ensures
            r is Some == self.color is Some,
            r matches Some(c) ==> c@ == self.color->0@,
    {
        match &self.color {
            Some(c) => Some(c.as_str()),
            None => None,
        }
    }
}

impl Default for PromptSetting {
    fn default() -> (p: PromptSetting)
        ensures
            p@ == PromptSetting::spec_default(),
    {
        PromptSetting {
            label: "Assistant".to_owned(),
            prompt: "You are a helpful assistant".to_owned(),
            model: LlmModel::GPT4,
            color: None,
        }
    }
}

} // verus!
