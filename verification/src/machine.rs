//! The model of an application state machine found in firmware sources:
//! its enum, the tracked variable, transitions, and the graph of states that
//! a layout draws.
use vstd::prelude::*;
use crate::text::{
    byte_len, char_utf8_len, chars_for_bytes, chars_of, concat_str, contains, is_char_boundary,
    lemma_chars_for_bytes_le, starts_with, str_eq, string_of,
};
use crate::prettify::contains_str;
use crate::unicode::{to_upper, uppercase};

verus! {

/// A state as a node of the drawn graph.
#[derive(Debug, Clone, PartialEq, Eq)]
pub struct StateNode {
    pub id: String,
    pub is_initial: bool,
    pub is_fault: bool,
    pub cluster: String,
}

/// A transition as an edge of the drawn graph.
#[derive(Debug, Clone, PartialEq, Eq)]
pub struct TransitionEdge {
    pub guard: String,
    pub is_fault: bool,
    pub transition_type: TransitionType,
}

/// A C `enum` whose variants name states.
#[derive(Debug, PartialEq, Eq)]
pub struct EnumDefinition {
    pub name: String,
    pub variants: Vec<String>,
    pub file_path: String,
    pub line: usize,
}

/// Where a tracked variable is declared.
#[derive(Debug, PartialEq, Eq)]
pub enum VariableScope {
    Global,
    Function(String),
}

/// A variable of an enum type whose assignments are transitions.
#[derive(Debug, PartialEq, Eq)]
pub struct TrackedVariable {
    pub name: String,
    pub enum_type: String,
    pub scope: VariableScope,
    pub initial_value: Option<String>,
    pub file_path: String,
    pub line: usize,
}

/// An enum and a variable of that type that may form a state machine.
#[derive(Debug, PartialEq, Eq)]
pub struct StateMachineCandidate {
    pub id: String,
    pub display_name: String,
    pub enum_def: EnumDefinition,
    pub var: TrackedVariable,
}

/// One transition between two states, with the condition that guards it.
#[derive(Debug, PartialEq, Eq)]
pub struct AppTransition {
    pub from: String,
    pub to: String,
    pub guard: String,
    pub label: String,
    pub is_fault: bool,
    pub transition_type: TransitionType,
    pub line: usize,
}

/// How a transition is made.
#[derive(Debug, Clone, PartialEq, Eq)]
pub enum TransitionType {
    Direct,
    IndirectHelper { helper_name: String, argument: Option<String> },
    EventTriggered,
}

/// The value of a `TransitionType`.
pub enum TransitionTypeView {
    Direct,
    IndirectHelper { helper_name: Seq<char>, argument: Option<Seq<char>> },
    EventTriggered,
}

impl View for TransitionType {
    type V = TransitionTypeView;

    open spec fn view(&self) -> TransitionTypeView {
        match self {
            TransitionType::Direct => TransitionTypeView::Direct,
            TransitionType::IndirectHelper { helper_name, argument } => TransitionTypeView::IndirectHelper {
                helper_name: helper_name@,
                argument: match argument {
                    Some(a) => Some(a@),
                    None => None,
                },
            },
            TransitionType::EventTriggered => TransitionTypeView::EventTriggered,
        }
    }
}

/// A target that could not be told apart from another.
#[derive(Debug, PartialEq, Eq)]
pub struct AmbiguousTransition {
    pub target: String,
    pub guard: String,
    pub line: usize,
    pub note: String,
}

/// A state machine with its states and the transitions between them.
#[derive(Debug, PartialEq, Eq)]
pub struct AppStateMachine {
    pub id: String,
    pub display_name: String,
    pub enum_def: EnumDefinition,
    pub var: TrackedVariable,
    pub states: Vec<String>,
    pub transitions: Vec<AppTransition>,
    pub ambiguous_transitions: Vec<AmbiguousTransition>,
}

/// The value of an `EnumDefinition`.
pub struct EnumSpec {
    pub name: Seq<char>,
    pub variants: Seq<Seq<char>>,
    pub file_path: Seq<char>,
    pub line: int,
}

impl View for EnumDefinition {
    type V = EnumSpec;

    open spec fn view(&self) -> EnumSpec {
        EnumSpec {
            name: self.name@,
            variants: self.variants.deep_view(),
            file_path: self.file_path@,
            line: self.line as int,
        }
    }
}

/// A copy of a list of strings.
pub fn copy_strings(v: &Vec<String>) -> (r: Vec<String>)
    ensures
        r.deep_view() == v.deep_view(),
{
    let mut out: Vec<String> = Vec::new();
    let mut j: usize = 0;
    while j < v.len()
        invariant
            0 <= j <= v@.len(),
            out.deep_view() == v.deep_view().take(j as int),
        decreases v.len() - j,
    {
        assert(v.deep_view()[j as int] == v@[j as int]@);
        let ghost before = out.deep_view();
        out.push(v[j].clone());
        assert(out.deep_view() =~= before.push(v.deep_view()[j as int]));
        assert(v.deep_view().take(j + 1) =~= v.deep_view().take(j as int).push(v.deep_view()[j as int]));
        j += 1;
    }
    assert(v.deep_view().take(v@.len() as int) =~= v.deep_view());
    out
}

impl Clone for EnumDefinition {
    fn clone(&self) -> (r: Self)
        ensures
            r@ == self@,
    {
        EnumDefinition {
            name: self.name.clone(),
            variants: copy_strings(&self.variants),
            file_path: self.file_path.clone(),
            line: self.line,
        }
    }
}

/// The value of a `VariableScope`.
pub enum ScopeSpec {
    Global,
    Function(Seq<char>),
}

impl View for VariableScope {
    type V = ScopeSpec;

    open spec fn view(&self) -> ScopeSpec {
        match self {
            VariableScope::Global => ScopeSpec::Global,
            VariableScope::Function(f) => ScopeSpec::Function(f@),
        }
    }
}

impl Clone for VariableScope {
    fn clone(&self) -> (r: Self)
        ensures
            r@ == self@,
    {
        match self {
            VariableScope::Global => VariableScope::Global,
            VariableScope::Function(f) => VariableScope::Function(f.clone()),
        }
    }
}

/// The value of a `TrackedVariable`.
pub struct VarSpec {
    pub name: Seq<char>,
    pub enum_type: Seq<char>,
    pub scope: ScopeSpec,
    pub initial_value: Option<Seq<char>>,
    pub file_path: Seq<char>,
    pub line: int,
}

impl View for TrackedVariable {
    type V = VarSpec;

    open spec fn view(&self) -> VarSpec {
        VarSpec {
            name: self.name@,
            enum_type: self.enum_type@,
            scope: self.scope@,
            initial_value: match self.initial_value {
                Some(v) => Some(v@),
                None => None,
            },
            file_path: self.file_path@,
            line: self.line as int,
        }
    }
}

impl Clone for TrackedVariable {
    fn clone(&self) -> (r: Self)
        ensures
            r@ == self@,
    {
        TrackedVariable {
            name: self.name.clone(),
            enum_type: self.enum_type.clone(),
            scope: self.scope.clone(),
            initial_value: match &self.initial_value {
                Some(v) => Some(v.clone()),
                None => None,
            },
            file_path: self.file_path.clone(),
            line: self.line,
        }
    }
}

/// The value of a `StateMachineCandidate`.
pub struct CandidateSpec {
    pub id: Seq<char>,
    pub display_name: Seq<char>,
    pub enum_def: EnumSpec,
    pub var: VarSpec,
}

impl View for StateMachineCandidate {
    type V = CandidateSpec;

    open spec fn view(&self) -> CandidateSpec {
        CandidateSpec {
            id: self.id@,
            display_name: self.display_name@,
            enum_def: self.enum_def@,
            var: self.var@,
        }
    }
}

impl Clone for StateMachineCandidate {
    fn clone(&self) -> (r: Self)
        ensures
            r@ == self@,
    {
        StateMachineCandidate {
            id: self.id.clone(),
            display_name: self.display_name.clone(),
            enum_def: self.enum_def.clone(),
            var: self.var.clone(),
        }
    }
}

pub open spec fn candidates_view(v: Seq<StateMachineCandidate>) -> Seq<CandidateSpec> {
    v.map_values(|c: StateMachineCandidate| c@)
}

/// The value of an `AppTransition`.
pub struct TransitionSpec {
    pub from: Seq<char>,
    pub to: Seq<char>,
    pub guard: Seq<char>,
    pub label: Seq<char>,
    pub is_fault: bool,
    pub transition_type: TransitionTypeView,
    pub line: int,
}

impl View for AppTransition {
    type V = TransitionSpec;

    open spec fn view(&self) -> TransitionSpec {
        TransitionSpec {
            from: self.from@,
            to: self.to@,
            guard: self.guard@,
            label: self.label@,
            is_fault: self.is_fault,
            transition_type: self.transition_type@,
            line: self.line as int,
        }
    }
}

impl Clone for AppTransition {
    fn clone(&self) -> (r: Self)
        ensures
            r@ == self@,
    {
        AppTransition {
            from: self.from.clone(),
            to: self.to.clone(),
            guard: self.guard.clone(),
            label: self.label.clone(),
            is_fault: self.is_fault,
            transition_type: copy_transition_type(&self.transition_type),
            line: self.line,
        }
    }
}

pub open spec fn transitions_view(v: Seq<AppTransition>) -> Seq<TransitionSpec> {
    v.map_values(|t: AppTransition| t@)
}

/// The value of an `AmbiguousTransition`.
pub struct AmbiguousSpec {
    pub target: Seq<char>,
    pub guard: Seq<char>,
    pub line: int,
    pub note: Seq<char>,
}

impl View for AmbiguousTransition {
    type V = AmbiguousSpec;

    open spec fn view(&self) -> AmbiguousSpec {
        AmbiguousSpec { target: self.target@, guard: self.guard@, line: self.line as int, note: self.note@ }
    }
}

impl Clone for AmbiguousTransition {
    fn clone(&self) -> (r: Self)
        ensures
            r@ == self@,
    {
        AmbiguousTransition {
            target: self.target.clone(),
            guard: self.guard.clone(),
            line: self.line,
            note: self.note.clone(),
        }
    }
}

pub open spec fn ambiguous_view(v: Seq<AmbiguousTransition>) -> Seq<AmbiguousSpec> {
    v.map_values(|t: AmbiguousTransition| t@)
}

/// The value of an `AppStateMachine`.
pub struct MachineSpec {
    pub id: Seq<char>,
    pub display_name: Seq<char>,
    pub enum_def: EnumSpec,
    pub var: VarSpec,
    pub states: Seq<Seq<char>>,
    pub transitions: Seq<TransitionSpec>,
    pub ambiguous_transitions: Seq<AmbiguousSpec>,
}

impl View for AppStateMachine {
    type V = MachineSpec;

    open spec fn view(&self) -> MachineSpec {
        MachineSpec {
            id: self.id@,
            display_name: self.display_name@,
            enum_def: self.enum_def@,
            var: self.var@,
            states: self.states.deep_view(),
            transitions: transitions_view(self.transitions@),
            ambiguous_transitions: ambiguous_view(self.ambiguous_transitions@),
        }
    }
}

impl Clone for AppStateMachine {
    fn clone(&self) -> (r: Self)
        ensures
            r@ == self@,
    {
        let mut ts: Vec<AppTransition> = Vec::new();
        let mut i: usize = 0;
        while i < self.transitions.len()
            invariant
                0 <= i <= self.transitions@.len(),
                transitions_view(ts@) == transitions_view(self.transitions@).take(i as int),
            decreases self.transitions.len() - i,
        {
            let ghost before = transitions_view(ts@);
            ts.push(self.transitions[i].clone());
            assert(transitions_view(ts@) =~= before.push(transitions_view(self.transitions@)[i as int]));
            assert(transitions_view(self.transitions@).take(i + 1) =~= transitions_view(self.transitions@).take(
                i as int,
            ).push(transitions_view(self.transitions@)[i as int]));
            i += 1;
        }
        assert(transitions_view(self.transitions@).take(self.transitions@.len() as int) =~= transitions_view(
            self.transitions@,
        ));
        let mut am: Vec<AmbiguousTransition> = Vec::new();
        let mut j: usize = 0;
        while j < self.ambiguous_transitions.len()
            invariant
                0 <= j <= self.ambiguous_transitions@.len(),
                ambiguous_view(am@) == ambiguous_view(self.ambiguous_transitions@).take(j as int),
            decreases self.ambiguous_transitions.len() - j,
        {
            let ghost before = ambiguous_view(am@);
            am.push(self.ambiguous_transitions[j].clone());
            assert(ambiguous_view(am@) =~= before.push(ambiguous_view(self.ambiguous_transitions@)[j as int]));
            assert(ambiguous_view(self.ambiguous_transitions@).take(j + 1) =~= ambiguous_view(
                self.ambiguous_transitions@,
            ).take(j as int).push(ambiguous_view(self.ambiguous_transitions@)[j as int]));
            j += 1;
        }
        assert(ambiguous_view(self.ambiguous_transitions@).take(self.ambiguous_transitions@.len() as int)
            =~= ambiguous_view(self.ambiguous_transitions@));
        AppStateMachine {
            id: self.id.clone(),
            display_name: self.display_name.clone(),
            enum_def: self.enum_def.clone(),
            var: self.var.clone(),
            states: copy_strings(&self.states),
            transitions: ts,
            ambiguous_transitions: am,
        }
    }
}

/// A copy of a transition type.
pub fn copy_transition_type(t: &TransitionType) -> (r: TransitionType)
    ensures
        r@ == t@,
{
    match t {
        TransitionType::Direct => TransitionType::Direct,
        TransitionType::IndirectHelper { helper_name, argument } => TransitionType::IndirectHelper {
            helper_name: helper_name.clone(),
            argument: match argument {
                Some(a) => Some(a.clone()),
                None => None,
            },
        },
        TransitionType::EventTriggered => TransitionType::EventTriggered,
    }
}

/// `max_len - 3`, or zero when `max_len` is smaller.
pub open spec fn cut_point(max_len: usize) -> int {
    if max_len >= 3 {
        max_len - 3
    } else {
        0
    }
}

/// The text that a transition shows: its label, or its guard when it has none.
pub open spec fn shown_text(label: Seq<char>, guard: Seq<char>) -> Seq<char> {
    if label.len() > 0 {
        label
    } else {
        guard
    }
}

/// `text` when it fits in `max_len` bytes; else its first `max_len - 3`
/// bytes followed by `...`.
pub open spec fn shortened(text: Seq<char>, max_len: usize) -> Seq<char> {
    if byte_len(text) <= max_len {
        text
    } else {
        text.take(chars_for_bytes(text, cut_point(max_len)) as int) + "..."@
    }
}

impl AppTransition {
    /// The label (or the guard when there is no label), cut to `max_len`
    /// bytes with `...` at the end when it is longer.
    pub fn display_guard(&self, max_len: usize) -> (r: String)
        requires
            byte_len(shown_text(self.label@, self.guard@)) <= max_len || is_char_boundary(
                shown_text(self.label@, self.guard@),
                cut_point(max_len),
            ),
        ensures
            r@ == shortened(shown_text(self.label@, self.guard@), max_len),
    {
        let text: &String = if self.label.as_str().unicode_len() > 0 {
            &self.label
        } else {
            &self.guard
        };
        let ghost t = text@;
        let total = crate::text::str_byte_len(text.as_str());
        if total <= max_len {
            return text.clone();
        }
        let m: usize = if max_len >= 3 {
            max_len - 3
        } else {
            0
        };
        let c = chars_of(text.as_str());
        let mut i: usize = 0;
        let mut acc: usize = 0;
        proof {
            lemma_chars_for_bytes_le(t, m as int);
            assert(t.take(0) =~= Seq::<char>::empty());
            assert(t.skip(0) =~= t);
        }
        while acc < m && i < c.len()
            invariant
                0 <= i <= c@.len(),
                c@ == t,
                m <= max_len,
                m == cut_point(max_len),
                is_char_boundary(t, m as int),
                acc <= m,
                acc == byte_len(t.take(i as int)),
                chars_for_bytes(t, m as int) == i + chars_for_bytes(t.skip(i as int), m - acc),
            decreases c.len() - i,
        {
            let w = char_utf8_len(c[i]);
            proof {
                crate::text::lemma_encode_concat(t.take(i as int), seq![t[i as int]]);
                assert(t.take(i + 1) =~= t.take(i as int) + seq![t[i as int]]);
                assert(t.skip(i as int).drop_first() =~= t.skip(i + 1));
                assert(t.skip(i as int)[0] == t[i as int]);
            }
            if acc + w > m {
                proof {
                    lemma_chars_for_bytes_le(t.skip(i + 1), m - acc - w);
                    assert(chars_for_bytes(t, m as int) == i + 1 + chars_for_bytes(t.skip(i + 1), m - acc - w));
                    assert(chars_for_bytes(t.skip(i + 1), m - acc - w) == 0);
                    assert(byte_len(t.take(i + 1)) == acc + w);
                }
                assert(false);
            }
            acc = acc + w;
            i += 1;
        }
        proof {
            if i < c.len() {
                assert(chars_for_bytes(t.skip(i as int), 0) == 0);
            } else {
                assert(t.skip(i as int) =~= Seq::<char>::empty());
            }
        }
        let head = string_of(&c, 0, i);
        assert(head@ =~= t.take(i as int));
        concat_str(head.as_str(), "...")
    }
}

/// An upper-cased state name mentions `FAULT` or `ERROR`.
pub open spec fn fault_name(state: Seq<char>) -> bool {
    contains(uppercase(state), "FAULT"@) || contains(uppercase(state), "ERROR"@)
}

/// The state is a fault state: its name, upper-cased, holds `FAULT` or `ERROR`.
pub fn is_fault_state(state: &str) -> (b: bool)
    ensures
        b == fault_name(state@),
{
    let upper = to_upper(state);
    contains_str(upper.as_str(), "FAULT") || contains_str(upper.as_str(), "ERROR")
}

/// The lane that a state is drawn in.
pub open spec fn cluster_name(state: Seq<char>, initial: Seq<char>) -> Seq<char> {
    if fault_name(state) {
        "FAULT"@
    } else if state == initial {
        "INITIAL"@
    } else if starts_with(state, "CAL"@) {
        "CALIBRATION"@
    } else if starts_with(state, "REC"@) {
        "RECOVERY"@
    } else if state == "GOING"@ || state == "HOLD"@ || state == "RETURNING"@ || state == "RETURNED"@ {
        "MOTION"@
    } else if state == "OPENING"@ || state == "CLOSING"@ {
        "MECHANISM"@
    } else {
        "GENERAL"@
    }
}

/// `s` starts with `p`.
fn starts_with_str(s: &str, p: &str) -> (b: bool)
    ensures
        b == starts_with(s@, p@),
{
    let c = chars_of(s);
    let pc = chars_of(p);
    assert(c@.subrange(0, c@.len() as int) =~= c@);
    crate::text::starts_with_in(&c, 0, c.len(), &pc)
}

/// The lane of a state: fault, initial, calibration, recovery, motion,
/// mechanism, or general.
pub fn infer_cluster_name(state: &str, initial_name: &str) -> (r: &'static str)
    ensures
        r@ == cluster_name(state@, initial_name@),
{
    if is_fault_state(state) {
        "FAULT"
    } else if str_eq(state, initial_name) {
        "INITIAL"
    } else if starts_with_str(state, "CAL") {
        "CALIBRATION"
    } else if starts_with_str(state, "REC") {
        "RECOVERY"
    } else if str_eq(state, "GOING") || str_eq(state, "HOLD") || str_eq(state, "RETURNING") || str_eq(
        state,
        "RETURNED",
    ) {
        "MOTION"
    } else if str_eq(state, "OPENING") || str_eq(state, "CLOSING") {
        "MECHANISM"
    } else {
        "GENERAL"
    }
}

} // verus!
