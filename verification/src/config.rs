//! Remap rules and the question "which remaps apply to this window class".

use vstd::prelude::*;

verus! {

/// What a source key is turned into: one key expression, or several that are
/// sent in order.
#[derive(Debug, PartialEq, Eq)]
pub enum KeyAction {
    Single(String),
    Multiple(Vec<String>),
}

/// One remap: the key expression `from` triggers `to`.
#[derive(Debug, PartialEq, Eq)]
pub struct Remap {
    pub from: String,
    pub to: KeyAction,
}

/// One rule: which window classes it applies to, and its remaps in order.
#[derive(Debug, PartialEq, Eq)]
pub struct WindowConfig {
    pub class_only: Option<Vec<String>>,
    pub class_not: Option<Vec<String>>,
    pub remaps: Vec<Remap>,
}

/// The rule list, in the order in which it was written.
#[derive(Debug, PartialEq, Eq)]
pub struct Config {
    pub windows: Vec<WindowConfig>,
}

/// A [`KeyAction`] as text.
pub enum ActionView {
    Single(Seq<char>),
    Multiple(Seq<Seq<char>>),
}

/// A [`Remap`] as text.
pub struct RemapView {
    pub from: Seq<char>,
    pub to: ActionView,
}

/// A [`WindowConfig`] as text.
pub struct RuleView {
    pub class_only: Option<Seq<Seq<char>>>,
    pub class_not: Option<Seq<Seq<char>>>,
    pub remaps: Seq<RemapView>,
}

/// The texts that a list of strings holds.
pub open spec fn texts_of(strings: Seq<String>) -> Seq<Seq<char>> {
    Seq::new(strings.len(), |i: int| strings[i]@)
}

/// The texts of an optional pattern list.
pub open spec fn patterns_of(patterns: Option<Vec<String>>) -> Option<Seq<Seq<char>>> {
    match patterns {
        Some(list) => Some(texts_of(list@)),
        None => None,
    }
}

/// The remaps of a list, each as text.
pub open spec fn remap_views(remaps: Seq<Remap>) -> Seq<RemapView> {
    Seq::new(remaps.len(), |i: int| remaps[i]@)
}

/// The text of an optional window class.
pub open spec fn class_text(window_class: Option<&str>) -> Option<Seq<char>> {
    match window_class {
        Some(class) => Some(class@),
        None => None,
    }
}

impl View for KeyAction {
    type V = ActionView;

    open spec fn view(&self) -> ActionView {
        match self {
            KeyAction::Single(key) => ActionView::Single(key@),
            KeyAction::Multiple(keys) => ActionView::Multiple(texts_of(keys@)),
        }
    }
}

impl View for Remap {
    type V = RemapView;

    open spec fn view(&self) -> RemapView {
        RemapView { from: self.from@, to: self.to@ }
    }
}

impl View for WindowConfig {
    type V = RuleView;

    open spec fn view(&self) -> RuleView {
        RuleView {
            class_only: patterns_of(self.class_only),
            class_not: patterns_of(self.class_not),
            remaps: remap_views(self.remaps@),
        }
    }
}

impl View for Config {
    type V = Seq<RuleView>;

    open spec fn view(&self) -> Seq<RuleView> {
        Seq::new(self.windows@.len(), |i: int| self.windows@[i]@)
    }
}

impl Clone for KeyAction {
    fn clone(&self) -> (copy: Self)
        ensures
            copy@ == self@,
    {
        match self {
            KeyAction::Single(key) => KeyAction::Single(key.clone()),
            KeyAction::Multiple(keys) => {
                let copied = keys.clone();
                KeyAction::Multiple(copied)
            },
        }
    }
}

impl Clone for Remap {
    fn clone(&self) -> (copy: Self)
        ensures
            copy@ == self@,
    {
        Remap { from: self.from.clone(), to: self.to.clone() }
    }
}

/// The lower-case form of a text, as `str::to_lowercase` computes it.
pub uninterp spec fn lowercase(text: Seq<char>) -> Seq<char>;

/// `needle` occurs in `hay` as a run of consecutive characters.
pub open spec fn contains_text(hay: Seq<char>, needle: Seq<char>) -> bool {
    exists|at: int|
        0 <= at && at + needle.len() <= hay.len() && #[trigger] hay.subrange(
            at,
            at + needle.len(),
        ) == needle
}

/// Some pattern, lower-cased, occurs in the class, which is lower-case already.
pub open spec fn some_pattern_in(patterns: Seq<Seq<char>>, lowered_class: Seq<char>) -> bool {
    exists|i: int|
        0 <= i < patterns.len() && contains_text(lowered_class, lowercase(#[trigger] patterns[i]))
}

/// Whether a rule applies to a window whose class is `class`, or is unknown.
///
/// A rule without filters always applies. Of an unknown class nothing can be
/// shown: a rule with a `class_not` filter applies, one with `class_only`
/// alone does not. Where the class is known, `class_only` decides alone if it
/// is there; else the rule applies unless a `class_not` pattern occurs.
pub open spec fn rule_applies(rule: RuleView, class: Option<Seq<char>>) -> bool {
    if rule.class_only is None && rule.class_not is None {
        true
    } else {
        match class {
            None => rule.class_not is Some,
            Some(name) => match rule.class_only {
                Some(only) => some_pattern_in(only, lowercase(name)),
                None => !some_pattern_in(rule.class_not->0, lowercase(name)),
            },
        }
    }
}

/// The remaps that a rule adds for a class: all of its own, or none.
pub open spec fn remaps_of_rule(rule: RuleView, class: Option<Seq<char>>) -> Seq<RemapView> {
    if rule_applies(rule, class) {
        rule.remaps
    } else {
        Seq::empty()
    }
}

/// The remaps of all rules that apply, rule after rule, each rule's own order
/// kept.
pub open spec fn remaps_for(rules: Seq<RuleView>, class: Option<Seq<char>>) -> Seq<RemapView>
    decreases rules.len(),
{
    if rules.len() == 0 {
        Seq::empty()
    } else {
        remaps_for(rules.drop_last(), class) + remaps_of_rule(rules.last(), class)
    }
}

/// Specification of `str::to_lowercase`: its result is the lower-case form of
/// the argument, which the name [`lowercase`] stands for.
pub assume_specification[ str::to_lowercase ](text: &str) -> (lowered: String)
    ensures
        lowered@ == lowercase(text@),
;

/// Calls `str::contains` with a string pattern: true exactly when the pattern
/// occurs in `hay` as a substring.
#[verifier::external_body]
fn text_contains(hay: &str, needle: &str) -> (found: bool)
    ensures
        found == contains_text(hay@, needle@),
{
    hay.contains(needle)
}

/// Whether some pattern of the list, lower-cased, occurs in the class.
fn any_pattern_in(patterns: &Vec<String>, lowered_class: &str) -> (found: bool)
    ensures
        found == some_pattern_in(texts_of(patterns@), lowered_class@),
{
    let mut i: usize = 0;
    while i < patterns.len()
        invariant
            i <= patterns.len(),
            forall|k: int|
                0 <= k < i ==> !contains_text(
                    lowered_class@,
                    lowercase(#[trigger] texts_of(patterns@)[k]),
                ),
        decreases patterns.len() - i,
    {
        let lowered = patterns[i].as_str().to_lowercase();
        assert(texts_of(patterns@)[i as int] == patterns@[i as int]@);
        if text_contains(lowered_class, lowered.as_str()) {
            return true;
        }
        i += 1;
    }
    false
}

/// Adding one rule to the list adds what that rule gives, at the end.
proof fn lemma_remaps_for_step(rules: Seq<RuleView>, class: Option<Seq<char>>, n: int)
    requires
        0 <= n < rules.len(),
    ensures
        remaps_for(rules.take(n + 1), class) == remaps_for(rules.take(n), class) + remaps_of_rule(
            rules[n],
            class,
        ),
{
    assert(rules.take(n + 1).drop_last() =~= rules.take(n));
}

impl Config {
    /// The remaps for a window of the given class, `None` where the class is
    /// not known: those of every rule that applies, in rule order.
    pub fn remaps_for_window(&self, window_class: Option<&str>) -> (remaps: Vec<Remap>)
        ensures
            remap_views(remaps@) == remaps_for(self@, class_text(window_class)),
    {
        let ghost class = class_text(window_class);
        let mut remaps: Vec<Remap> = Vec::new();
        let mut i: usize = 0;
        while i < self.windows.len()
            invariant
                i <= self.windows.len(),
                class == class_text(window_class),
                remap_views(remaps@) == remaps_for(self@.take(i as int), class),
            decreases self.windows.len() - i,
        {
            let rule = &self.windows[i];
            proof {
                lemma_remaps_for_step(self@, class, i as int);
            }
            if self.matches_window(rule, window_class) {
                let ghost before = remap_views(remaps@);
                let mut j: usize = 0;
                while j < rule.remaps.len()
                    invariant
                        j <= rule.remaps.len(),
                        remap_views(remaps@) == before + rule@.remaps.take(j as int),
                    decreases rule.remaps.len() - j,
                {
                    let copy = rule.remaps[j].clone();
                    let ghost so_far = remaps@;
                    remaps.push(copy);
                    assert(remap_views(remaps@) =~= remap_views(so_far).push(copy@));
                    j += 1;
                }
            }
            i += 1;
        }
        assert(self@.take(i as int) =~= self@);
        remaps
    }

    /// Whether `config` applies to a window of the given class, `None` where
    /// the class is not known.
    pub fn matches_window(&self, config: &WindowConfig, window_class: Option<&str>) -> (applies:
        bool)
        ensures
            applies == rule_applies(config@, class_text(window_class)),
    {
        if config.class_only.is_none() && config.class_not.is_none() {
            return true;
        }
        let class = match window_class {
            Some(name) => name.to_lowercase(),
            None => {
                return config.class_not.is_some();
            },
        };
        if let Some(class_only) = &config.class_only {
            return any_pattern_in(class_only, class.as_str());
        }
        if let Some(class_not) = &config.class_not {
            return !any_pattern_in(class_not, class.as_str());
        }
        true
    }
}

/// For a window of unknown class, a rule that has a filter applies exactly
/// when it has a `class_not` filter, whatever `class_only` holds.
pub proof fn lemma_unknown_class(rule: RuleView)
    requires
        rule.class_only is Some || rule.class_not is Some,
    ensures
        rule_applies(rule, None) <==> rule.class_not is Some,
{
}

/// A rule without filters applies to every window, of known class or not.
pub proof fn lemma_no_filter_applies(rule: RuleView, class: Option<Seq<char>>)
    requires
        rule.class_only is None,
        rule.class_not is None,
    ensures
        rule_applies(rule, class),
{
}

} // verus!
