use vstd::prelude::*;

use crate::model::{
    duplicate_items, item_view, items_view, lemma_items_view, ActionView, EntryView, Item,
    ItemValue,
};

verus! {

broadcast use vstd::std_specs::vec::group_vec_axioms, vstd::seq::group_seq_axioms;

/// Key code of the Enter key.
pub const ENTER_KEY: u32 = 65293;

/// What the host should do after a key press.
#[derive(Debug)]
pub enum NavigationOutcome {
    /// Nothing matched: nothing to render, nothing to run.
    NoOp,
    /// A submenu was entered: render these entries.
    Descend(Vec<Item>),
    /// A terminal action was chosen: run this command line (or open this
    /// path), then quit.
    Execute(String),
}

/// Mathematical value of an outcome.
pub enum OutcomeView {
    NoOp,
    Descend(Seq<EntryView>),
    Execute(Seq<char>),
}

pub open spec fn outcome_view(o: NavigationOutcome) -> OutcomeView {
    match o {
        NavigationOutcome::NoOp => OutcomeView::NoOp,
        NavigationOutcome::Descend(v) => OutcomeView::Descend(items_view(v@)),
        NavigationOutcome::Execute(s) => OutcomeView::Execute(s@),
    }
}

/// The character code that a key press stands for: on Enter with a selected
/// row, that row's key; otherwise the key code itself.
pub open spec fn trigger_code(keyval: u32, resolved: Option<char>) -> u32 {
    if keyval == ENTER_KEY && resolved is Some {
        resolved->0 as u32
    } else {
        keyval
    }
}

/// Position of the first entry whose key has the code, or -1.
pub open spec fn first_match(level: Seq<EntryView>, code: u32) -> int
    decreases level.len(),
{
    if level.len() == 0 {
        -1
    } else if level[0].key as u32 == code {
        0
    } else {
        let p = first_match(level.subrange(1, level.len() as int), code);
        if p < 0 {
            -1
        } else {
            p + 1
        }
    }
}

/// The outcome of pressing a key whose code is `code` at the level.
pub open spec fn outcome_of(level: Seq<EntryView>, code: u32) -> OutcomeView {
    let p = first_match(level, code);
    if p < 0 {
        OutcomeView::NoOp
    } else {
        match level[p].value {
            ActionView::Index(children) => OutcomeView::Descend(children),
            ActionView::File(s) => OutcomeView::Execute(s),
            ActionView::Command(s) => OutcomeView::Execute(s),
            ActionView::Application(s) => OutcomeView::Execute(s),
        }
    }
}

/// The level shown after pressing a key whose code is `code`: a submenu
/// replaces the level, anything else leaves it.
pub open spec fn next_level(level: Seq<EntryView>, code: u32) -> Seq<EntryView> {
    match outcome_of(level, code) {
        OutcomeView::Descend(children) => children,
        _ => level,
    }
}

proof fn lemma_first_match(level: Seq<EntryView>, code: u32)
    ensures
        -1 <= first_match(level, code) < level.len(),
        first_match(level, code) >= 0 ==> level[first_match(level, code)].key as u32 == code,
        forall|k: int|
            0 <= k < level.len() && (first_match(level, code) < 0 || k < first_match(level, code))
                ==> level[k].key as u32 != code,
    decreases level.len(),
{
    if level.len() > 0 && level[0].key as u32 != code {
        let rest = level.subrange(1, level.len() as int);
        lemma_first_match(rest, code);
        assert forall|k: int|
            1 <= k < level.len() && (first_match(level, code) < 0 || k < first_match(level, code))
                implies level[k].key as u32 != code by {
            assert(level[k] == rest[k - 1]);
        }
    }
}

/// The navigation state: the entries visible now.
pub struct Navigator {
    current: Vec<Item>,
}

impl View for Navigator {
    type V = Seq<EntryView>;

    closed spec fn view(&self) -> Seq<EntryView> {
        items_view(self.current@)
    }
}

impl Navigator {
    /// Starts at the root list.
    pub fn new(root: Vec<Item>) -> (r: Navigator)
        ensures
            r@ == items_view(root@),
    {
        Navigator { current: root }
    }

    /// The entries visible now.
    pub fn current(&self) -> (r: &Vec<Item>)
        ensures
            items_view(r@) == self@,
    {
        &self.current
    }

    /// Handles one key press. `resolved` is the key of the selected row, used
    /// when the key pressed is Enter.
    pub fn handle_key(&mut self, keyval: u32, resolved: Option<char>) -> (r: NavigationOutcome)
        ensures
            outcome_view(r) == outcome_of(old(self)@, trigger_code(keyval, resolved)),
            final(self)@ == next_level(old(self)@, trigger_code(keyval, resolved)),
    {
        let code: u32 = match resolved {
            Some(c) => if keyval == ENTER_KEY {
                c as u32
            } else {
                keyval
            },
            None => keyval,
        };
        assert(code == trigger_code(keyval, resolved));
        let ghost level = self@;
        proof {
            lemma_items_view(self.current@);
            lemma_first_match(level, code);
        }
        let mut i: usize = 0;
        while i < self.current.len()
            invariant
                i <= self.current@.len(),
                level == items_view(self.current@),
                code == trigger_code(keyval, resolved),
                level == old(self)@,
                level.len() == self.current@.len(),
                forall|k: int| 0 <= k < level.len() ==> #[trigger] level[k] == item_view(self.current@[k]),
                forall|k: int| 0 <= k < i ==> level[k].key as u32 != code,
            decreases self.current.len() - i,
        {
            if self.current[i].key as u32 == code {
                proof {
                    lemma_first_match(level, code);
                }
                assert(level[i as int] == item_view(self.current@[i as int]));
                assert(first_match(level, code) == i);
                match &self.current[i].value {
                    ItemValue::Index(children) => {
                        assert(level[i as int].value == ActionView::Index(items_view(children@)));
                        let next = duplicate_items(children);
                        let shown = duplicate_items(&next);
                        self.current = next;
                        return NavigationOutcome::Descend(shown);
                    },
                    ItemValue::File(s) => {
                        return NavigationOutcome::Execute(s.clone());
                    },
                    ItemValue::Command(s) => {
                        return NavigationOutcome::Execute(s.clone());
                    },
                    ItemValue::Application(s) => {
                        return NavigationOutcome::Execute(s.clone());
                    },
                }
            }
            i += 1;
        }
        proof {
            lemma_first_match(level, code);
        }
        NavigationOutcome::NoOp
    }
}


/// A key that matches no entry of the level is a no-op: nothing to do, and
/// the level stays as it was.
pub proof fn lemma_no_match_is_noop(level: Seq<EntryView>, code: u32)
    requires
        forall|k: int| 0 <= k < level.len() ==> level[k].key as u32 != code,
    ensures
        outcome_of(level, code) == OutcomeView::NoOp,
        next_level(level, code) == level,
{
    lemma_first_match(level, code);
}

/// Enter with a selected row whose key is `c` acts exactly as pressing `c`.
pub proof fn lemma_enter_resolves_to_selection(level: Seq<EntryView>, c: char)
    ensures
        outcome_of(level, trigger_code(ENTER_KEY, Some(c))) == outcome_of(
            level,
            trigger_code(c as u32, None),
        ),
        next_level(level, trigger_code(ENTER_KEY, Some(c))) == next_level(
            level,
            trigger_code(c as u32, None),
        ),
{
}

/// An outcome that runs something ends the session, and leaves the level as
/// it was.
pub proof fn lemma_execute_keeps_level(level: Seq<EntryView>, code: u32)
    requires
        outcome_of(level, code) is Execute,
    ensures
        next_level(level, code) == level,
{
}

} // verus!
