//! The data model of interactive wizards: the steps of a flow, the answers
//! a user gives, the result that collects them by step, and the runner
//! trait that a user interface implements.  Numeric answers and bounds are
//! of a type `N` that the user interface chooses.
use vstd::prelude::*;
use crate::text::{chars_of, own, str_eq};

verus! {

// ------------------------------------------------------------------------
// Steps
// ------------------------------------------------------------------------

/// One option of a choice or multi-select prompt.
#[derive(Debug, Clone)]
pub struct ChoiceOption {
    /// The value stored in the result.
    pub value: String,
    /// The label shown to the user.
    pub label: String,
    /// An optional description shown beside the label.
    pub description: Option<String>,
}

impl ChoiceOption {
    /// An option with a value and a label, without description.
    pub fn new(value: &str, label: &str) -> (r: Self)
        ensures
            r.value@ == value@,
            r.label@ == label@,
            r.description is None,
    {
        ChoiceOption { value: own(value), label: own(label), description: None }
    }

    /// The same option with a description attached.
    pub fn with_description(self, desc: &str) -> (r: Self)
        ensures
            r.value == self.value,
            r.label == self.label,
            r.description matches Some(d) && d@ == desc@,
    {
        ChoiceOption { description: Some(own(desc)), ..self }
    }
}

/// The kind of input a step expects.
#[derive(Debug, Clone)]
pub enum PromptKind<N> {
    /// Free-form text.
    String,
    /// Exactly one of the options.
    Choice(Vec<ChoiceOption>),
    /// Yes or no.
    Confirm,
    /// A number, with optional bounds.
    Number { min: Option<N>, max: Option<N> },
    /// Any number of the options.
    MultiSelect(Vec<ChoiceOption>),
}

/// One step of a wizard.
#[derive(Debug, Clone)]
pub struct WizardStep<N> {
    /// The key of the step's answer in the result.
    pub id: String,
    /// The question shown to the user.
    pub prompt: String,
    /// Optional teaching text.
    pub explanation: Option<String>,
    /// What kind of input the step expects.
    pub kind: PromptKind<N>,
    /// Whether the user must answer (cannot skip).
    pub required: bool,
    /// The default shown in the prompt.
    pub default: Option<String>,
}

/// The options built from `(value, label)` pairs, in order, without descriptions.
pub open spec fn options_from(cs: Seq<ChoiceOption>, pairs: Seq<(&str, &str)>) -> bool {
    &&& cs.len() == pairs.len()
    &&& forall|i: int| 0 <= i < cs.len() ==> {
        &&& (#[trigger] cs[i]).value@ == pairs[i].0@
        &&& cs[i].label@ == pairs[i].1@
        &&& cs[i].description is None
    }
}

/// Options from `(value, label)` pairs.
fn options_of(pairs: Vec<(&str, &str)>) -> (r: Vec<ChoiceOption>)
    ensures
        options_from(r@, pairs@),
{
    let mut out: Vec<ChoiceOption> = Vec::new();
    let mut i: usize = 0;
    while i < pairs.len()
        invariant
            i <= pairs@.len(),
            out@.len() == i,
            forall|k: int| 0 <= k < i ==> {
                &&& (#[trigger] out@[k]).value@ == pairs@[k].0@
                &&& out@[k].label@ == pairs@[k].1@
                &&& out@[k].description is None
            },
        decreases pairs@.len() - i,
    {
        let (v, l) = pairs[i];
        out.push(ChoiceOption::new(v, l));
        i = i + 1;
    }
    out
}

/// A fresh step: required, with no explanation and no default.
pub open spec fn fresh_step<N>(r: WizardStep<N>, id: &str, prompt: &str) -> bool {
    &&& r.id@ == id@
    &&& r.prompt@ == prompt@
    &&& r.explanation is None
    &&& r.required
    &&& r.default is None
}

impl<N> WizardStep<N> {
    fn of_kind(id: &str, prompt: &str, kind: PromptKind<N>) -> (r: Self)
        ensures
            fresh_step(r, id, prompt),
            r.kind == kind,
    {
        WizardStep { id: own(id), prompt: own(prompt), explanation: None, kind, required: true, default: None }
    }

    /// A free-form text step.
    pub fn string(id: &str, prompt: &str) -> (r: Self)
        ensures
            fresh_step(r, id, prompt),
            r.kind matches PromptKind::String,
    {
        Self::of_kind(id, prompt, PromptKind::String)
    }

    /// A single-choice step with options from `(value, label)` pairs.
    pub fn choice(id: &str, prompt: &str, options: Vec<(&str, &str)>) -> (r: Self)
        ensures
            fresh_step(r, id, prompt),
            r.kind matches PromptKind::Choice(cs) && options_from(cs@, options@),
    {
        Self::of_kind(id, prompt, PromptKind::Choice(options_of(options)))
    }

    /// A yes/no step.
    pub fn confirm(id: &str, prompt: &str) -> (r: Self)
        ensures
            fresh_step(r, id, prompt),
            r.kind matches PromptKind::Confirm,
    {
        Self::of_kind(id, prompt, PromptKind::Confirm)
    }

    /// A numeric step without bounds.
    pub fn number(id: &str, prompt: &str) -> (r: Self)
        ensures
            fresh_step(r, id, prompt),
            r.kind matches PromptKind::Number { min: None, max: None },
    {
        Self::of_kind(id, prompt, PromptKind::Number { min: None, max: None })
    }

    /// A multi-select step with options from `(value, label)` pairs.
    pub fn multi_select(id: &str, prompt: &str, options: Vec<(&str, &str)>) -> (r: Self)
        ensures
            fresh_step(r, id, prompt),
            r.kind matches PromptKind::MultiSelect(cs) && options_from(cs@, options@),
    {
        Self::of_kind(id, prompt, PromptKind::MultiSelect(options_of(options)))
    }

    /// The same step with an explanation.
    pub fn with_explanation(self, text: &str) -> (r: Self)
        ensures
            r.explanation matches Some(e) && e@ == text@,
            r.id == self.id,
            r.prompt == self.prompt,
            r.kind == self.kind,
            r.required == self.required,
            r.default == self.default,
    {
        WizardStep { explanation: Some(own(text)), ..self }
    }

    /// The same step with a default value.
    pub fn with_default(self, val: &str) -> (r: Self)
        ensures
            r.default matches Some(d) && d@ == val@,
            r.id == self.id,
            r.prompt == self.prompt,
            r.explanation == self.explanation,
            r.kind == self.kind,
            r.required == self.required,
    {
        WizardStep { default: Some(own(val)), ..self }
    }

    /// The same step, made optional.
    pub fn optional(self) -> (r: Self)
        ensures
            !r.required,
            r.id == self.id,
            r.prompt == self.prompt,
            r.explanation == self.explanation,
            r.kind == self.kind,
            r.default == self.default,
    {
        WizardStep { required: false, ..self }
    }

    /// The same step with numeric bounds; a step that is not numeric is
    /// returned unchanged.
    pub fn with_bounds(self, min: Option<N>, max: Option<N>) -> (r: Self)
        ensures
            r.kind == (match self.kind {
                PromptKind::Number { .. } => PromptKind::Number { min, max },
                k => k,
            }),
            r.id == self.id,
            r.prompt == self.prompt,
            r.explanation == self.explanation,
            r.required == self.required,
            r.default == self.default,
    {
        match self.kind {
            PromptKind::Number { .. } => WizardStep { kind: PromptKind::Number { min, max }, ..self },
            _ => self,
        }
    }
}

// ------------------------------------------------------------------------
// Answers and results
// ------------------------------------------------------------------------

/// One answer given by the user.
#[derive(Debug, Clone)]
pub enum WizardAnswer<N> {
    /// Free-form text.
    String(String),
    /// A yes/no confirmation.
    Bool(bool),
    /// A number.
    Number(N),
    /// The values of the chosen options.
    Selected(Vec<String>),
    /// The step was skipped (optional steps only).
    Skipped,
}

/// Strict order of step ids: lexicographic by character, as `String`
/// orders them.
pub open spec fn key_lt(a: Seq<char>, b: Seq<char>) -> bool
    decreases a.len(),
{
    if b.len() == 0 {
        false
    } else if a.len() == 0 {
        true
    } else if a[0] != b[0] {
        a[0] < b[0]
    } else {
        key_lt(a.drop_first(), b.drop_first())
    }
}

/// Entries in strictly increasing order of their ids.
pub open spec fn keys_sorted<A>(e: Seq<(Seq<char>, A)>) -> bool {
    forall|i: int, j: int| 0 <= i < j < e.len() ==> key_lt(#[trigger] e[i].0, #[trigger] e[j].0)
}

/// The value stored under `k`, if any.
pub open spec fn lookup<A>(e: Seq<(Seq<char>, A)>, k: Seq<char>) -> Option<A> {
    if exists|i: int| 0 <= i < e.len() && (#[trigger] e[i]).0 == k {
        Some(e[choose|i: int| 0 <= i < e.len() && (#[trigger] e[i]).0 == k].1)
    } else {
        None
    }
}

/// Entries as plain data.
pub open spec fn entries_of<N>(s: Seq<(String, WizardAnswer<N>)>) -> Seq<(Seq<char>, WizardAnswer<N>)> {
    s.map_values(|p: (String, WizardAnswer<N>)| (p.0@, p.1))
}

/// How many entries hold an answer other than `Skipped`.
pub open spec fn answered_count<N>(e: Seq<(Seq<char>, WizardAnswer<N>)>) -> nat
    decreases e.len(),
{
    if e.len() == 0 {
        0
    } else {
        answered_count(e.drop_last()) + if e.last().1 is Skipped {
            0nat
        } else {
            1nat
        }
    }
}

/// The answers collected by a wizard, by step id, in order of the ids.
#[derive(Debug)]
pub struct WizardResult<N> {
    answers: Vec<(String, WizardAnswer<N>)>,
}

impl<N> WizardResult<N> {
    #[verifier::type_invariant]
    spec fn ids_sorted(self) -> bool {
        keys_sorted(entries_of(self.answers@))
    }

    /// The answers by step id, in increasing order of the ids.
    pub closed spec fn entries(self) -> Seq<(Seq<char>, WizardAnswer<N>)> {
        entries_of(self.answers@)
    }

    /// An empty result.
    pub fn new() -> (r: Self)
        ensures
            r.entries() == Seq::<(Seq<char>, WizardAnswer<N>)>::empty(),
    {
        let r = WizardResult { answers: Vec::new() };
        assert(r.entries() =~= Seq::<(Seq<char>, WizardAnswer<N>)>::empty());
        r
    }

    /// The index of the answer under `id`.
    fn find(&self, id: &str) -> (r: Option<usize>)
        ensures
            keys_sorted(self.entries()),
            match r {
                Some(i) => i < self.entries().len() && self.entries()[i as int].0 == id@ && lookup(self.entries(), id@) == Some(self.entries()[i as int].1),
                None => lookup(self.entries(), id@) is None,
            },
    {
        proof {
            use_type_invariant(self);
        }
        let ghost e = self.entries();
        let mut i: usize = 0;
        while i < self.answers.len()
            invariant
                i <= self.answers@.len(),
                e == self.entries(),
                e.len() == self.answers@.len(),
                keys_sorted(e),
                forall|q: int| 0 <= q < i ==> (#[trigger] e[q]).0 != id@,
            decreases self.answers@.len() - i,
        {
            assert(e[i as int].0 == self.answers@[i as int].0@);
            if str_eq(self.answers[i].0.as_str(), id) {
                proof {
                    lemma_lookup_at(e, i as int);
                }
                return Some(i);
            }
            i = i + 1;
        }
        proof {
            lemma_lookup_none(e, id@);
        }
        None
    }

    /// Store `answer` under `id`, replacing an earlier one.
    pub fn set(&mut self, id: &str, answer: WizardAnswer<N>)
        ensures
            keys_sorted(final(self).entries()),
            forall|k: Seq<char>| #[trigger] lookup(final(self).entries(), k) == if k == id@ {
                Some(answer)
            } else {
                lookup(old(self).entries(), k)
            },
    {
        proof {
            use_type_invariant(&*self);
        }
        let ghost e = self.entries();
        let mut v: Vec<(String, WizardAnswer<N>)> = Vec::new();
        std::mem::swap(&mut v, &mut self.answers);
        assert(entries_of(v@) == e);
        let mut p: usize = 0;
        while p < v.len() && key_less(v[p].0.as_str(), id)
            invariant
                p <= v@.len(),
                entries_of(v@) == e,
                e.len() == v@.len(),
                keys_sorted(e),
                forall|q: int| 0 <= q < p ==> key_lt((#[trigger] e[q]).0, id@),
            decreases v@.len() - p,
        {
            assert(e[p as int].0 == v@[p as int].0@);
            p = p + 1;
        }
        let ghost pi = p as int;
        if p < v.len() && str_eq(v[p].0.as_str(), id) {
            assert(e[pi].0 == v@[pi].0@);
            v.set(p, (own(id), answer));
            let ghost e2 = entries_of(v@);
            assert(e2 =~= e.update(pi, (id@, answer)));
            proof {
                assert forall|i: int, j: int| 0 <= i < j < e2.len() implies key_lt(#[trigger] e2[i].0, #[trigger] e2[j].0) by {
                    assert(e2[i].0 == e[i].0 && e2[j].0 == e[j].0);
                }
                lemma_lookup_at(e2, pi);
                assert forall|k: Seq<char>| #[trigger] lookup(e2, k) == if k == id@ {
                    Some(answer)
                } else {
                    lookup(e, k)
                } by {
                    if k != id@ {
                        if exists|i: int| 0 <= i < e.len() && (#[trigger] e[i]).0 == k {
                            let i = choose|i: int| 0 <= i < e.len() && (#[trigger] e[i]).0 == k;
                            lemma_lookup_at(e, i);
                            assert(i != pi);
                            assert(e2[i] == e[i]);
                            lemma_lookup_at(e2, i);
                        } else {
                            lemma_lookup_none(e, k);
                            assert forall|i: int| 0 <= i < e2.len() implies (#[trigger] e2[i]).0 != k by {
                                if i != pi {
                                    assert(e2[i] == e[i]);
                                }
                            }
                            lemma_lookup_none(e2, k);
                        }
                    }
                }
            }
        } else {
            proof {
                if pi < e.len() {
                    assert(e[pi].0 == v@[pi].0@);
                    assert(!key_lt(e[pi].0, id@));
                    assert(e[pi].0 != id@);
                    lemma_lt_total(e[pi].0, id@);
                    assert forall|j: int| pi <= j < e.len() implies key_lt(id@, (#[trigger] e[j]).0) by {
                        if j > pi {
                            lemma_lt_trans(id@, e[pi].0, e[j].0);
                        }
                    }
                }
            }
            v.insert(p, (own(id), answer));
            let ghost e2 = entries_of(v@);
            assert(e2 =~= e.insert(pi, (id@, answer)));
            proof {
                assert forall|i: int, j: int| 0 <= i < j < e2.len() implies key_lt(#[trigger] e2[i].0, #[trigger] e2[j].0) by {
                    if j < pi {
                        assert(e2[i] == e[i] && e2[j] == e[j]);
                    } else if j == pi {
                        assert(e2[i] == e[i]);
                    } else if i < pi {
                        assert(e2[i] == e[i] && e2[j] == e[j - 1]);
                        lemma_lt_trans(e[i].0, id@, e[j - 1].0);
                    } else if i == pi {
                        assert(e2[j] == e[j - 1]);
                    } else {
                        assert(e2[i] == e[i - 1] && e2[j] == e[j - 1]);
                    }
                }
                lemma_lookup_at(e2, pi);
                assert forall|k: Seq<char>| #[trigger] lookup(e2, k) == if k == id@ {
                    Some(answer)
                } else {
                    lookup(e, k)
                } by {
                    if k != id@ {
                        if exists|i: int| 0 <= i < e.len() && (#[trigger] e[i]).0 == k {
                            let i = choose|i: int| 0 <= i < e.len() && (#[trigger] e[i]).0 == k;
                            lemma_lookup_at(e, i);
                            if i < pi {
                                assert(e2[i] == e[i]);
                                lemma_lookup_at(e2, i);
                            } else {
                                assert(e2[i + 1] == e[i]);
                                lemma_lookup_at(e2, i + 1);
                            }
                        } else {
                            lemma_lookup_none(e, k);
                            assert forall|i: int| 0 <= i < e2.len() implies (#[trigger] e2[i]).0 != k by {
                                if i < pi {
                                    assert(e2[i] == e[i]);
                                } else if i > pi {
                                    assert(e2[i] == e[i - 1]);
                                }
                            }
                            lemma_lookup_none(e2, k);
                        }
                    }
                }
            }
        }
        self.answers = v;
    }

    /// Whether an answer other than `Skipped` is stored under `id`.
    pub fn has(&self, id: &str) -> (r: bool)
        ensures
            r == (lookup(self.entries(), id@) matches Some(a) && !(a is Skipped)),
    {
        match self.find(id) {
            Some(i) => !matches!(self.answers[i].1, WizardAnswer::Skipped),
            None => false,
        }
    }

    /// The text answer under `id`; `None` when missing or of another kind.
    pub fn get_string(&self, id: &str) -> (r: Option<&str>)
        ensures
            match lookup(self.entries(), id@) {
                Some(WizardAnswer::String(s)) => r matches Some(x) && x@ == s@,
                _ => r is None,
            },
    {
        match self.find(id) {
            Some(i) => match &self.answers[i].1 {
                WizardAnswer::String(s) => Some(s.as_str()),
                _ => None,
            },
            None => None,
        }
    }

    /// The yes/no answer under `id`; `None` when missing or of another kind.
    pub fn get_bool(&self, id: &str) -> (r: Option<bool>)
        ensures
            r == match lookup(self.entries(), id@) {
                Some(WizardAnswer::Bool(b)) => Some(b),
                _ => None,
            },
    {
        match self.find(id) {
            Some(i) => match &self.answers[i].1 {
                WizardAnswer::Bool(b) => Some(*b),
                _ => None,
            },
            None => None,
        }
    }

    /// The numeric answer under `id`; `None` when missing or of another kind.
    pub fn get_number(&self, id: &str) -> (r: Option<N>)
        where
            N: Copy,
        ensures
            r == match lookup(self.entries(), id@) {
                Some(WizardAnswer::Number(n)) => Some(n),
                _ => None,
            },
    {
        match self.find(id) {
            Some(i) => match &self.answers[i].1 {
                WizardAnswer::Number(n) => Some(*n),
                _ => None,
            },
            None => None,
        }
    }

    /// The selected values under `id`; `None` when missing or of another kind.
    pub fn get_selected(&self, id: &str) -> (r: Option<&[String]>)
        ensures
            match lookup(self.entries(), id@) {
                Some(WizardAnswer::Selected(v)) => r matches Some(x) && x@ == v@,
                _ => r is None,
            },
    {
        match self.find(id) {
            Some(i) => match &self.answers[i].1 {
                WizardAnswer::Selected(v) => Some(v.as_slice()),
                _ => None,
            },
            None => None,
        }
    }

    /// The ids that have an entry, in increasing order.
    pub fn answered_ids(&self) -> (r: Vec<&str>)
        ensures
            r@.len() == self.entries().len(),
            forall|i: int| 0 <= i < r@.len() ==> (#[trigger] r@[i])@ == self.entries()[i].0,
            keys_sorted(self.entries()),
    {
        proof {
            use_type_invariant(self);
        }
        let mut out: Vec<&str> = Vec::new();
        let mut i: usize = 0;
        while i < self.answers.len()
            invariant
                i <= self.answers@.len(),
                self.entries().len() == self.answers@.len(),
                out@.len() == i,
                forall|k: int| 0 <= k < i ==> (#[trigger] out@[k])@ == self.entries()[k].0,
            decreases self.answers@.len() - i,
        {
            out.push(self.answers[i].0.as_str());
            i = i + 1;
        }
        out
    }

    /// The number of entries that are not `Skipped`.
    pub fn count(&self) -> (r: usize)
        ensures
            r == answered_count(self.entries()),
    {
        let ghost e = self.entries();
        let mut c: usize = 0;
        let mut i: usize = 0;
        assert(e.take(0) =~= Seq::<(Seq<char>, WizardAnswer<N>)>::empty());
        while i < self.answers.len()
            invariant
                i <= self.answers@.len(),
                e == self.entries(),
                e.len() == self.answers@.len(),
                c <= i,
                c == answered_count(e.take(i as int)),
            decreases self.answers@.len() - i,
        {
            assert(e.take(i + 1).drop_last() =~= e.take(i as int));
            assert(e[i as int].1 == self.answers@[i as int].1);
            if !matches!(self.answers[i].1, WizardAnswer::Skipped) {
                c = c + 1;
            }
            i = i + 1;
        }
        assert(e.take(i as int) =~= e);
        c
    }

    /// The entries, by id in increasing order.
    pub fn into_map(self) -> (r: Vec<(String, WizardAnswer<N>)>)
        ensures
            entries_of(r@) == self.entries(),
            keys_sorted(entries_of(r@)),
    {
        proof {
            use_type_invariant(&self);
        }
        self.answers
    }
}

/// A user interface that asks the steps of a wizard.
pub trait WizardRunner<N> {
    /// Ask one step; `None` when the user cancels.
    fn run_step(&self, step: &WizardStep<N>) -> Option<WizardAnswer<N>>;

    /// Whether the runner talks to a real interactive terminal.
    fn is_interactive(&self) -> bool;
}

/// The ids of `steps`.
pub open spec fn step_ids<N>(steps: Seq<WizardStep<N>>) -> Set<Seq<char>> {
    Set::new(|k: Seq<char>| exists|i: int| 0 <= i < steps.len() && (#[trigger] steps[i]).id@ == k)
}

/// The ids of `steps`, in order.
pub open spec fn id_seq<N>(steps: Seq<WizardStep<N>>) -> Seq<Seq<char>> {
    steps.map_values(|s: WizardStep<N>| s.id@)
}

/// The answer given at the last of `ids` that is `k`, answers pairing up
/// with ids from the end.
pub open spec fn last_answer<A>(ids: Seq<Seq<char>>, answers: Seq<A>, k: Seq<char>) -> Option<A>
    decreases ids.len(),
{
    if ids.len() == 0 || answers.len() == 0 {
        None
    } else if ids.last() == k {
        Some(answers.last())
    } else {
        last_answer(ids.drop_last(), answers.drop_last(), k)
    }
}

/// Entries hold, under each id, the answer at its last occurrence among
/// `ids`, with one answer per id.
pub open spec fn answers_give<A>(e: Seq<(Seq<char>, A)>, ids: Seq<Seq<char>>, answers: Seq<A>) -> bool {
    &&& answers.len() == ids.len()
    &&& forall|k: Seq<char>| #[trigger] lookup(e, k) == last_answer(ids, answers, k)
}

/// The step to ask after `asked` steps have been answered: the next one in
/// order, or none when all have been asked.
pub fn wizard_next<N>(steps: &[WizardStep<N>], asked: usize) -> (r: Option<&WizardStep<N>>)
    ensures
        asked < steps@.len() ==> (r matches Some(s) && *s == steps@[asked as int]),
        asked >= steps@.len() ==> r is None,
{
    if asked < steps.len() {
        Some(&steps[asked])
    } else {
        None
    }
}

/// The answers of a sequence with none missing.
pub open spec fn given<A>(answers: Seq<Option<A>>) -> Seq<A> {
    Seq::new(answers.len(), |i: int| answers[i]->0)
}

/// Gather the answers to the first steps, one per step in order: `None`
/// when some answer is missing (the user cancelled); otherwise each id of
/// those steps holds the answer to its last step.
pub fn collect_answers<N>(steps: &[WizardStep<N>], answers: Vec<Option<WizardAnswer<N>>>) -> (r: Option<WizardResult<N>>)
    requires
        answers@.len() <= steps@.len(),
    ensures
        r is None <==> exists|i: int| 0 <= i < answers@.len() && (#[trigger] answers@[i]) is None,
        r matches Some(res) ==> {
            &&& keys_sorted(res.entries())
            &&& forall|k: Seq<char>|
                (#[trigger] lookup(res.entries(), k)) is Some <==> step_ids(steps@.take(answers@.len() as int)).contains(k)
            &&& forall|k: Seq<char>| #[trigger] lookup(res.entries(), k) == last_answer(
                id_seq(steps@).take(answers@.len() as int),
                given(answers@),
                k,
            )
        },
{
    let ghost all = answers@;
    let ghost n = all.len();
    let ghost ids = id_seq(steps@);
    let mut rest = answers;
    let mut result: WizardResult<N> = WizardResult::new();
    let ghost mut got: Seq<WizardAnswer<N>> = seq![];
    let mut i: usize = 0;
    assert(all.skip(0) =~= all);
    while rest.len() > 0
        invariant
            i <= n,
            n == all.len(),
            n <= steps@.len(),
            rest@ == all.skip(i as int),
            all == answers@,
            ids == id_seq(steps@),
            got.len() == i,
            forall|j: int| 0 <= j < i ==> (#[trigger] all[j]) is Some && all[j]->0 == got[j],
            forall|k: Seq<char>|
                (#[trigger] lookup(result.entries(), k)) is Some <==> step_ids(steps@.take(i as int)).contains(k),
            forall|k: Seq<char>| #[trigger] lookup(result.entries(), k) == last_answer(ids.take(i as int), got, k),
        decreases rest@.len(),
    {
        let a = rest.remove(0);
        assert(a == all[i as int]);
        assert(rest@ =~= all.skip(i + 1));
        match a {
            Some(answer) => {
                let ghost before = result.entries();
                let ghost av = answer;
                result.set(steps[i].id.as_str(), answer);
                proof {
                    let g0 = got;
                    got = got.push(av);
                    assert(ids.take(i + 1).drop_last() =~= ids.take(i as int));
                    assert(ids.take(i + 1).last() == steps@[i as int].id@);
                    assert(got.drop_last() =~= g0);
                    assert forall|k: Seq<char>| #[trigger] lookup(result.entries(), k) == last_answer(ids.take(i + 1), got, k) by {
                        assert(lookup(before, k) == last_answer(ids.take(i as int), g0, k));
                    }
                    assert forall|k: Seq<char>|
                        (#[trigger] lookup(result.entries(), k)) is Some <==> step_ids(steps@.take(i + 1)).contains(k) by {
                        let s0 = steps@.take(i as int);
                        let s1 = steps@.take(i + 1);
                        if k == steps@[i as int].id@ {
                            assert(s1[i as int] == steps@[i as int]);
                        } else {
                            if step_ids(s1).contains(k) {
                                let j = choose|j: int| 0 <= j < s1.len() && (#[trigger] s1[j]).id@ == k;
                                assert(j != i);
                                assert(s0[j] == s1[j]);
                            }
                            if step_ids(s0).contains(k) {
                                let j = choose|j: int| 0 <= j < s0.len() && (#[trigger] s0[j]).id@ == k;
                                assert(s0[j] == s1[j]);
                            }
                        }
                    }
                }
            },
            None => {
                assert(all[i as int] is None);
                return None;
            },
        }
        i = i + 1;
    }
    proof {
        use_type_invariant(&result);
        assert(i == n);
        assert(given(all) =~= got);
    }
    Some(result)
}

/// Ask the steps in order, each once, stopping at the first cancel; the
/// answers gathered so far are then collected by [`collect_answers`].
/// `None` needs a step to be asked; a result holds an entry for exactly the
/// ids of the steps, for some answers, one per step, each id holding the
/// answer to its last step.
pub fn run_wizard<N>(runner: &dyn WizardRunner<N>, steps: &[WizardStep<N>]) -> (r: Option<WizardResult<N>>)
    ensures
        r is None ==> steps@.len() > 0,
        r matches Some(res) ==> keys_sorted(res.entries()) && forall|k: Seq<char>|
            (#[trigger] lookup(res.entries(), k)) is Some <==> step_ids(steps@).contains(k),
        r matches Some(res) ==> exists|answers: Seq<WizardAnswer<N>>|
            #[trigger] answers_give(res.entries(), id_seq(steps@), answers),
{
    let mut answers: Vec<Option<WizardAnswer<N>>> = Vec::new();
    let mut asked: usize = 0;
    let mut cancelled = false;
    while !cancelled && asked < steps.len()
        invariant
            asked <= steps@.len(),
            answers@.len() == asked,
            !cancelled ==> forall|j: int| 0 <= j < asked ==> (#[trigger] answers@[j]) is Some,
            cancelled ==> asked > 0 && answers@[asked - 1] is None,
        decreases steps@.len() - asked, if cancelled { 0int } else { 1int },
    {
        match wizard_next(steps, asked) {
            Some(step) => {
                let a = runner.run_step(step);
                cancelled = a.is_none();
                answers.push(a);
                asked = asked + 1;
            },
            None => {},
        }
    }
    let r = collect_answers(steps, answers);
    proof {
        if r is Some {
            let res = r->0;
            assert(asked == steps@.len());
            assert(steps@.take(asked as int) =~= steps@);
            assert(id_seq(steps@).take(asked as int) =~= id_seq(steps@));
            assert(answers_give(res.entries(), id_seq(steps@), given(answers@)));
        }
    }
    r
}

// ------------------------------------------------------------------------
// Order of ids
// ------------------------------------------------------------------------

/// Whether `a` comes before `b` in the order of step ids.
pub fn key_less(a: &str, b: &str) -> (r: bool)
    ensures
        r == key_lt(a@, b@),
{
    let x = chars_of(a);
    let y = chars_of(b);
    let mut i: usize = 0;
    assert(x@.skip(0) =~= x@);
    assert(y@.skip(0) =~= y@);
    while i < x.len() && i < y.len() && x[i] == y[i]
        invariant
            i <= x@.len(),
            i <= y@.len(),
            key_lt(x@, y@) == key_lt(x@.skip(i as int), y@.skip(i as int)),
        decreases x@.len() - i,
    {
        assert(x@.skip(i as int).drop_first() =~= x@.skip(i + 1));
        assert(y@.skip(i as int).drop_first() =~= y@.skip(i + 1));
        i = i + 1;
    }
    if i == y.len() {
        false
    } else if i == x.len() {
        true
    } else {
        x[i] < y[i]
    }
}

/// No id comes before itself.
pub proof fn lemma_lt_irreflexive(a: Seq<char>)
    ensures
        !key_lt(a, a),
    decreases a.len(),
{
    if a.len() > 0 {
        lemma_lt_irreflexive(a.drop_first());
    }
}

/// The order of ids is transitive.
pub proof fn lemma_lt_trans(a: Seq<char>, b: Seq<char>, c: Seq<char>)
    requires
        key_lt(a, b),
        key_lt(b, c),
    ensures
        key_lt(a, c),
    decreases a.len(),
{
    if a.len() > 0 && b.len() > 0 && c.len() > 0 && a[0] == b[0] && b[0] == c[0] {
        lemma_lt_trans(a.drop_first(), b.drop_first(), c.drop_first());
    }
}

/// Of two different ids, one comes first.
pub proof fn lemma_lt_total(a: Seq<char>, b: Seq<char>)
    requires
        a != b,
    ensures
        key_lt(a, b) || key_lt(b, a),
    decreases a.len(),
{
    if a.len() == 0 && b.len() == 0 {
        assert(a =~= b);
    } else if a.len() > 0 && b.len() > 0 && a[0] == b[0] {
        if a.drop_first() == b.drop_first() {
            assert(a =~= seq![a[0]] + a.drop_first());
            assert(b =~= seq![b[0]] + b.drop_first());
        }
        lemma_lt_total(a.drop_first(), b.drop_first());
    } else if a.len() > 0 && b.len() > 0 {
        assert(a[0] != b[0]);
    }
}

/// In sorted entries, the entry at `i` is what its id looks up.
pub proof fn lemma_lookup_at<A>(e: Seq<(Seq<char>, A)>, i: int)
    requires
        keys_sorted(e),
        0 <= i < e.len(),
    ensures
        lookup(e, e[i].0) == Some(e[i].1),
{
    let k = e[i].0;
    assert(0 <= i < e.len() && e[i].0 == k);
    let c = choose|c: int| 0 <= c < e.len() && (#[trigger] e[c]).0 == k;
    lemma_lt_irreflexive(k);
    if c < i {
        assert(key_lt(e[c].0, e[i].0));
    } else if i < c {
        assert(key_lt(e[i].0, e[c].0));
    }
}

/// An id that no entry has looks up nothing.
pub proof fn lemma_lookup_none<A>(e: Seq<(Seq<char>, A)>, k: Seq<char>)
    requires
        forall|i: int| 0 <= i < e.len() ==> (#[trigger] e[i]).0 != k,
    ensures
        lookup(e, k) is None,
{
}

} // verus!
