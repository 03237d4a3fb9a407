//! The configuration: the personas that the user has set up, and the rules
//! that a configuration has to meet.

use vstd::prelude::*;
use vstd::string::StringExecFns;

use crate::error::Error;
use crate::llm::LlmModel;
use crate::llm::PromptModel;
use crate::llm::PromptSetting;
use crate::text::chars_of;
use crate::text::has_prefix;
use crate::text::same;
use crate::text::starts_with;
use crate::text::str_eq;
use crate::text::string_of;
use crate::text::trim;
use crate::text::trimmed;

verus! {

/// What `str::to_lowercase` makes of a text.
pub uninterp spec fn lowercased(s: Seq<char>) -> Seq<char>;

/// Calls `str::to_lowercase`. The wrapper says that the result is the text
/// that `lowercased` names.
#[verifier::external_body]
pub(crate) fn lowercase(s: &str) -> (r: String)
    ensures
        r@ == lowercased(s@),
{
    s.to_lowercase()
}

/// What a persona of the configuration holds.
pub struct PromptView {
    pub label: Seq<char>,
    pub prompt: Seq<char>,
    pub model: LlmModel,
    pub color: Option<Seq<char>>,
}

/// A persona as the configuration holds it.
#[derive(Debug, Clone, Hash, PartialEq, Eq)]
pub struct Prompt {
    label: String,
    prompt: String,
    model: LlmModel,
    color: Option<String>,
}

impl View for Prompt {
    type V = PromptView;

    closed spec fn view(&self) -> PromptView {
        PromptView {
            label: self.label@,
            prompt: self.prompt@,
            model: self.model,
            color: match self.color {
                Some(c) => Some(c@),
                None => None,
            },
        }
    }
}

impl Prompt {
    /// A persona with the given name, text, model and colour.
    pub fn new(label: &str, prompt: &str, model: LlmModel, color: Option<String>) -> (p: Prompt)
        ensures
            p@ == (PromptView {
                label: label@,
                prompt: prompt@,
                model,
                color: match color {
                    Some(c) => Some(c@),
                    None => None,
                },
            }),
    {
        Prompt { label: label.to_owned(), prompt: prompt.to_owned(), model, color }
    }

    /// The model that the persona talks to.
    pub fn model(&self) -> (r: LlmModel)
        ensures
            r == self@.model,
    {
        self.model
    }

    /// The persona as a thread holds it.
    pub fn setting(&self) -> (r: PromptSetting)
        ensures
            r@ == (PromptModel {
                label: self@.label,
                prompt: self@.prompt,
                model: self@.model,
                color: self@.color,
            }),
    {
        PromptSetting {
            label: self.label.clone(),
            prompt: self.prompt.clone(),
            model: self.model,
            color: match &self.color {
                Some(c) => Some(c.clone()),
                None => None,
            },
        }
    }

    /// The name of the persona.
    pub fn label(&self) -> (r: &str)
        ensures
            r@ == self@.label,
    {
        self.label.as_str()
    }

    /// The text that the model is given at the beginning of a thread.
    pub fn prompt(&self) -> (r: &str)
        ensures
            r@ == self@.prompt,
    {
        self.prompt.as_str()
    }

    /// The name of the colour, if one is set.
    pub fn color(&self) -> (r: Option<&str>)
        ensures
            r is Some == self@.color is Some,
            r matches Some(c) ==> c@ == self@.color->0,
    {
        match &self.color {
            Some(c) => Some(c.as_str()),
            None => None,
        }
    }

    /// Whether two personas hold the same.
    pub fn same_as(&self, other: &Prompt) -> (r: bool)
        ensures
            r == (self@ == other@),
    {
        let colors = match (&self.color, &other.color) {
            (Some(a), Some(b)) => str_eq(a.as_str(), b.as_str()),
            (None, None) => true,
            _ => false,
        };
        colors && self.model == other.model && str_eq(self.label.as_str(), other.label.as_str()) && str_eq(
            self.prompt.as_str(),
            other.prompt.as_str(),
        )
    }
}

impl Default for Prompt {
    fn default() -> (p: Prompt)
        ensures
            p@ == (PromptView {
                label: "Assistant"@,
                prompt: "You are a helpful assistant"@,
                model: LlmModel::GPT4,
                color: None,
            }),
    {
        Prompt {
            label: "Assistant".to_owned(),
            prompt: "You are a helpful assistant".to_owned(),
            model: LlmModel::GPT4,
            color: None,
        }
    }
}

/// The names of the sixteen colours that a persona can have.
pub open spec fn is_ansi_color(name: Seq<char>) -> bool {
    name == "black"@ || name == "red"@ || name == "green"@ || name == "yellow"@ || name == "blue"@
        || name == "magenta"@ || name == "cyan"@ || name == "gray"@ || name == "darkgray"@ || name
        == "lightred"@ || name == "lightgreen"@ || name == "lightyellow"@ || name == "lightblue"@
        || name == "lightmagenta"@ || name == "lightcyan"@ || name == "white"@
}

/// Whether a text is the name of one of the sixteen colours.
pub fn ansi_color(name: &str) -> (r: bool)
    ensures
        r == is_ansi_color(name@),
{
    str_eq(name, "black") || str_eq(name, "red") || str_eq(name, "green") || str_eq(name, "yellow")
        || str_eq(name, "blue") || str_eq(name, "magenta") || str_eq(name, "cyan") || str_eq(
        name,
        "gray",
    ) || str_eq(name, "darkgray") || str_eq(name, "lightred") || str_eq(name, "lightgreen")
        || str_eq(name, "lightyellow") || str_eq(name, "lightblue") || str_eq(name, "lightmagenta")
        || str_eq(name, "lightcyan") || str_eq(name, "white")
}

/// Whether a colour as the user wrote it names one of the sixteen colours:
/// upper and lower case are the same, and white space around it is passed
/// over.
pub open spec fn color_is_valid(color: Seq<char>) -> bool {
    is_ansi_color(trimmed(lowercased(color)))
}

/// Whether a persona has a colour that names none of the sixteen.
pub open spec fn has_bad_color(p: PromptView) -> bool {
    p.color matches Some(c) && !color_is_valid(c)
}

/// Whether a persona has a colour that names none of the sixteen, as a
/// test on personas.
pub open spec fn bad_colored() -> spec_fn(PromptView) -> bool {
    |p: PromptView| has_bad_color(p)
}

/// The models of a sequence of personas.
pub open spec fn prompt_views(s: Seq<Prompt>) -> Seq<PromptView> {
    Seq::new(s.len(), |i: int| s[i]@)
}

/// The models of the personas that a sequence of references points to.
pub open spec fn prompt_ref_views(s: Seq<&Prompt>) -> Seq<PromptView> {
    Seq::new(s.len(), |i: int| s[i]@)
}

/// The personas without those that stand earlier in the sequence.
pub open spec fn distinct(prompts: Seq<PromptView>) -> Seq<PromptView>
    decreases prompts.len(),
{
    if prompts.len() == 0 {
        Seq::empty()
    } else if distinct(prompts.drop_last()).contains(prompts.last()) {
        distinct(prompts.drop_last())
    } else {
        distinct(prompts.drop_last()).push(prompts.last())
    }
}

/// Whether no persona stands twice in the sequence.
pub open spec fn no_repeat(prompts: Seq<PromptView>) -> bool {
    forall|i: int, j: int|
        0 <= i < j < prompts.len() ==> (#[trigger] prompts[i]) != (#[trigger] prompts[j])
}

/// Leaving out what stands earlier leaves nothing twice.
pub proof fn lemma_distinct(prompts: Seq<PromptView>)
    ensures
        no_repeat(distinct(prompts)),
    decreases prompts.len(),
{
    if prompts.len() > 0 {
        lemma_distinct(prompts.drop_last());
    }
}

/// The personas whose name begins with `key`, where upper and lower case
/// are the same.
pub open spec fn matching(prompts: Seq<PromptView>, key: Seq<char>) -> Seq<PromptView>
    decreases prompts.len(),
{
    if prompts.len() == 0 {
        Seq::empty()
    } else if has_prefix(lowercased(prompts.last().label), lowercased(key)) {
        matching(prompts.drop_last(), key).push(prompts.last())
    } else {
        matching(prompts.drop_last(), key)
    }
}

/// The first persona for which `hit` holds.
pub open spec fn first_where(prompts: Seq<PromptView>, hit: spec_fn(PromptView) -> bool) -> Option<
    PromptView,
>
    decreases prompts.len(),
{
    if prompts.len() == 0 {
        None
    } else if first_where(prompts.drop_last(), hit) is Some {
        first_where(prompts.drop_last(), hit)
    } else if hit(prompts.last()) {
        Some(prompts.last())
    } else {
        None
    }
}

/// Where no persona before the `i`th is a hit and the `i`th is one, it is
/// the first.
pub proof fn lemma_first_where(prompts: Seq<PromptView>, hit: spec_fn(PromptView) -> bool, i: int)
    requires
        0 <= i <= prompts.len(),
        forall|j: int| 0 <= j < i ==> !hit(#[trigger] prompts[j]),
        i < prompts.len() ==> hit(prompts[i]),
    ensures
        first_where(prompts, hit) == if i < prompts.len() {
            Some(prompts[i])
        } else {
            None
        },
    decreases prompts.len(),
{
    if prompts.len() > 0 {
        let front = prompts.drop_last();
        if i < prompts.len() - 1 {
            lemma_first_where(front, hit, i);
        } else {
            lemma_first_where(front, hit, prompts.len() - 1);
        }
    }
}

/// Whether a persona has the given name, where upper and lower case are
/// the same.
pub open spec fn named(key: Seq<char>) -> spec_fn(PromptView) -> bool {
    |p: PromptView| lowercased(p.label) == lowercased(key)
}

/// What a configuration holds.
pub struct ConfigView {
    pub syntax_theme: Seq<char>,
    pub editor: Option<Seq<char>>,
    pub api_key_var: Option<Seq<char>>,
    pub prompts: Seq<PromptView>,
}

/// The configuration.
#[derive(Debug, Clone)]
pub struct Config {
    syntax_theme: String,
    editor: Option<String>,
    api_key_var: Option<String>,
    prompts: Vec<Prompt>,
}

impl View for Config {
    type V = ConfigView;

    closed spec fn view(&self) -> ConfigView {
        ConfigView {
            syntax_theme: self.syntax_theme@,
            editor: match self.editor {
                Some(e) => Some(e@),
                None => None,
            },
            api_key_var: match self.api_key_var {
                Some(v) => Some(v@),
                None => None,
            },
            prompts: prompt_views(self.prompts@),
        }
    }
}

/// The variable of the environment that holds the key where the
/// configuration names none.
pub const DEFAULT_KEY_VAR: &'static str = "OPENAI_API_KEY";

/// What the message about a bad colour says.
pub open spec fn bad_color_text(p: PromptView) -> Seq<char> {
    "Invalid color '"@ + p.color->0 + "' in prompt '"@ + p.label + "': not a valid ANSI color"@
}

impl Config {
    /// Whether the configuration holds no persona twice.
    pub open spec fn wf(&self) -> bool {
        no_repeat(self@.prompts)
    }

    /// A configuration of the given parts. A persona that is given more
    /// than once is held once.
    pub fn new(
        syntax_theme: String,
        editor: Option<String>,
        api_key_var: Option<String>,
        prompts: Vec<Prompt>,
    ) -> (c: Config)
        ensures
            c.wf(),
            c@ == (ConfigView {
                syntax_theme: syntax_theme@,
                editor: match editor {
                    Some(e) => Some(e@),
                    None => None,
                },
                api_key_var: match api_key_var {
                    Some(v) => Some(v@),
                    None => None,
                },
                prompts: distinct(prompt_views(prompts@)),
            }),
    {
        let mut kept: Vec<Prompt> = Vec::new();
        let mut i: usize = 0;
        let ghost given = prompt_views(prompts@);
        assert(given.take(0) == Seq::<PromptView>::empty());
        assert(prompt_views(kept@) =~= Seq::<PromptView>::empty());
        while i < prompts.len()
            invariant
                i <= prompts.len(),
                given == prompt_views(prompts@),
                prompt_views(kept@) == distinct(given.take(i as int)),
            decreases prompts.len() - i,
        {
            let p = &prompts[i];
            let mut seen = false;
            let mut j: usize = 0;
            while j < kept.len()
                invariant
                    j <= kept.len(),
                    seen == exists|k: int| 0 <= k < j && prompt_views(kept@)[k] == p@,
                decreases kept.len() - j,
            {
                if kept[j].same_as(p) {
                    assert(prompt_views(kept@)[j as int] == p@);
                    seen = true;
                }
                j += 1;
            }
            proof {
                let after = given.take(i + 1);
                assert(after.drop_last() == given.take(i as int));
                assert(after.last() == p@);
                let so_far = prompt_views(kept@);
                if so_far.contains(p@) {
                    let k = choose|k: int| 0 <= k < so_far.len() && so_far[k] == p@;
                    assert(prompt_views(kept@)[k] == p@);
                }
            }
            if !seen {
                let copy = Prompt {
                    label: p.label.clone(),
                    prompt: p.prompt.clone(),
                    model: p.model,
                    color: match &p.color {
                        Some(c) => Some(c.clone()),
                        None => None,
                    },
                };
                assert(prompt_views(kept@.push(copy)) =~= prompt_views(kept@).push(copy@));
                kept.push(copy);
            }
            i += 1;
        }
        proof {
            assert(given.take(prompts.len() as int) == given);
            lemma_distinct(given);
        }
        Config { syntax_theme, editor, api_key_var, prompts: kept }
    }

    /// The personas of the configuration.
    pub fn prompts(&self) -> (r: Vec<&Prompt>)
        ensures
            prompt_ref_views(r@) == self@.prompts,
    {
        let mut out: Vec<&Prompt> = Vec::new();
        let mut i: usize = 0;
        while i < self.prompts.len()
            invariant
                i <= self.prompts.len(),
                out@.len() == i,
                forall|j: int| 0 <= j < i ==> out@[j]@ == self.prompts@[j]@,
            decreases self.prompts.len() - i,
        {
            out.push(&self.prompts[i]);
            i += 1;
        }
        assert(prompt_ref_views(out@) =~= prompt_views(self.prompts@));
        out
    }

    /// The first persona with the given name, where upper and lower case
    /// are the same.
    pub fn get_prompt(&self, label: &str) -> (r: Option<&Prompt>)
        ensures
            r is Some == first_where(self@.prompts, named(label@)) is Some,
            r matches Some(p) ==> Some(p@) == first_where(self@.prompts, named(label@)),
    {
        let key = lowercase(label);
        let mut i: usize = 0;
        while i < self.prompts.len()
            invariant
                i <= self.prompts.len(),
                key@ == lowercased(label@),
                forall|j: int| 0 <= j < i ==> !named(label@)(#[trigger] prompt_views(self.prompts@)[j]),
            decreases self.prompts.len() - i,
        {
            let own = lowercase(self.prompts[i].label.as_str());
            if str_eq(own.as_str(), key.as_str()) {
                proof {
                    assert(named(label@)(prompt_views(self.prompts@)[i as int]));
                    lemma_first_where(prompt_views(self.prompts@), named(label@), i as int);
                }
                return Some(&self.prompts[i]);
            }
            assert(!named(label@)(prompt_views(self.prompts@)[i as int]));
            i += 1;
        }
        proof {
            lemma_first_where(prompt_views(self.prompts@), named(label@), self.prompts.len() as int);
        }
        None
    }

    /// The personas whose name begins with the given text, where upper and
    /// lower case are the same.
    pub fn get_matching_prompts(&self, label: &str) -> (r: Vec<&Prompt>)
        ensures
            prompt_ref_views(r@) == matching(self@.prompts, label@),
    {
        let key = chars_of(lowercase(label).as_str());
        let mut out: Vec<&Prompt> = Vec::new();
        let mut i: usize = 0;
        let ghost all = prompt_views(self.prompts@);
        assert(all.take(0) == Seq::<PromptView>::empty());
        assert(prompt_ref_views(out@) =~= Seq::<PromptView>::empty());
        while i < self.prompts.len()
            invariant
                i <= self.prompts.len(),
                all == prompt_views(self.prompts@),
                key@ == lowercased(label@),
                prompt_ref_views(out@) == matching(all.take(i as int), label@),
            decreases self.prompts.len() - i,
        {
            let own = chars_of(lowercase(self.prompts[i].label.as_str()).as_str());
            proof {
                let after = all.take(i + 1);
                assert(after.drop_last() == all.take(i as int));
                assert(after.last() == self.prompts@[i as int]@);
            }
            if starts_with(&own, &key) {
                assert(prompt_ref_views(out@.push(&self.prompts@[i as int])) =~= prompt_ref_views(
                    out@,
                ).push(self.prompts@[i as int]@));
                out.push(&self.prompts[i]);
            }
            i += 1;
        }
        assert(all.take(self.prompts.len() as int) == all);
        out
    }

    /// The name of the theme for code.
    pub fn syntax_theme(&self) -> (r: &str)
        ensures
            r@ == self@.syntax_theme,
    {
        self.syntax_theme.as_str()
    }

    /// The editor that the configuration names, if it names one.
    pub fn editor(&self) -> (r: Option<&str>)
        ensures
            r is Some == self@.editor is Some,
            r matches Some(e) ==> e@ == self@.editor->0,
    {
        match &self.editor {
            Some(e) => Some(e.as_str()),
            None => None,
        }
    }

    /// The variable of the environment that holds the key.
    pub fn api_key_var(&self) -> (r: &str)
        ensures
            r@ == match self@.api_key_var {
                Some(v) => v,
                None => DEFAULT_KEY_VAR@,
            },
    {
        match &self.api_key_var {
            Some(v) => v.as_str(),
            None => DEFAULT_KEY_VAR,
        }
    }

    /// Checks the colours of the personas. The first persona whose colour
    /// names none of the sixteen is reported, by its colour and its name.
    pub fn validate(&self) -> (r: Result<(), Error>)
        ensures
            r is Ok == first_where(self@.prompts, bad_colored()) is None,
            r matches Err(e) ==> (e matches Error::Other(text) && text@ == bad_color_text(
                first_where(self@.prompts, bad_colored())->0,
            )),
    {
        let ghost bad = bad_colored();
        let mut i: usize = 0;
        while i < self.prompts.len()
            invariant
                i <= self.prompts.len(),
                bad == bad_colored(),
                forall|j: int| 0 <= j < i ==> !bad(#[trigger] prompt_views(self.prompts@)[j]),
            decreases self.prompts.len() - i,
        {
            let p = &self.prompts[i];
            let ghost pv = prompt_views(self.prompts@)[i as int];
            match &p.color {
                Some(c) => {
                    let shown = string_of(&trim(&chars_of(lowercase(c.as_str()).as_str())));
                    if !ansi_color(shown.as_str()) {
                        proof {
                            assert(bad(pv));
                            lemma_first_where(prompt_views(self.prompts@), bad, i as int);
                        }
                        let mut text = "Invalid color '".to_owned();
                        text.append(c.as_str());
                        text.append("' in prompt '");
                        text.append(p.label.as_str());
                        text.append("': not a valid ANSI color");
                        return Err(Error::Other(text));
                    }
                    assert(!bad(pv));
                },
                None => {
                    assert(!bad(pv));
                },
            }
            i += 1;
        }
        proof {
            lemma_first_where(prompt_views(self.prompts@), bad, self.prompts.len() as int);
        }
        Ok(())
    }
}

} // verus!
