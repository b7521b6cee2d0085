use vstd::prelude::*;

verus! {

broadcast use vstd::std_specs::vec::group_vec_axioms, vstd::seq::group_seq_axioms;

/// What an entry does when its key is pressed.
#[derive(Debug, PartialEq)]
pub enum ItemValue {
    /// A path to open.
    File(String),
    /// A command line to run.
    Command(String),
    /// An application's command line; run as a command.
    Application(String),
    /// A submenu.
    Index(Vec<Item>),
}

/// One entry of the menu tree.
#[derive(Debug, PartialEq)]
pub struct Item {
    /// The key that activates the entry within its list.
    pub key: char,
    /// The label shown beside the key.
    pub text: String,
    pub value: ItemValue,
}

/// Mathematical value of an entry's action.
pub enum ActionView {
    File(Seq<char>),
    Command(Seq<char>),
    Application(Seq<char>),
    Index(Seq<EntryView>),
}

/// Mathematical value of an entry.
pub struct EntryView {
    pub key: char,
    pub text: Seq<char>,
    pub value: ActionView,
}

/// The mathematical value of an entry, submenus included.
pub open spec fn item_view(i: Item) -> EntryView
    decreases i,
{
    EntryView {
        key: i.key,
        text: i.text@,
        value: match i.value {
            ItemValue::File(s) => ActionView::File(s@),
            ItemValue::Command(s) => ActionView::Command(s@),
            ItemValue::Application(s) => ActionView::Application(s@),
            ItemValue::Index(v) => ActionView::Index(items_view(v@)),
        },
    }
}

/// The mathematical value of a list of entries, element by element.
pub open spec fn items_view(s: Seq<Item>) -> Seq<EntryView>
    decreases s,
{
    Seq::new(
        s.len(),
        |k: int|
            if 0 <= k < s.len() {
                item_view(s[k])
            } else {
                EntryView { key: ' ', text: Seq::empty(), value: ActionView::Index(Seq::empty()) }
            },
    )
}

/// Length and elements of a list's mathematical value.
pub proof fn lemma_items_view(s: Seq<Item>)
    ensures
        items_view(s).len() == s.len(),
        forall|k: int| 0 <= k < s.len() ==> #[trigger] items_view(s)[k] == item_view(s[k]),
        forall|k: int| 0 <= k < s.len() ==> #[trigger] items_view(s)[k].key == s[k].key,
{
}


impl Item {
    /// A deep copy of the entry.
    pub fn duplicate(&self) -> (r: Item)
        ensures
            item_view(r) == item_view(*self),
        decreases self,
    {
        let value = match &self.value {
            ItemValue::File(s) => ItemValue::File(s.clone()),
            ItemValue::Command(s) => ItemValue::Command(s.clone()),
            ItemValue::Application(s) => ItemValue::Application(s.clone()),
            ItemValue::Index(children) => ItemValue::Index(duplicate_items(children)),
        };
        Item { key: self.key, text: self.text.clone(), value }
    }
}

/// A deep copy of a sibling list.
pub fn duplicate_items(items: &Vec<Item>) -> (r: Vec<Item>)
    ensures
        items_view(r@) == items_view(items@),
    decreases items,
{
    let mut out: Vec<Item> = Vec::with_capacity(items.len());
    let mut i: usize = 0;
    while i < items.len()
        invariant
            i <= items@.len(),
            out@.len() == i,
            forall|k: int| 0 <= k < i ==> item_view(#[trigger] out@[k]) == item_view(items@[k]),
        decreases items.len() - i,
    {
        let copy = items[i].duplicate();
        out.push(copy);
        i += 1;
    }
    proof {
        lemma_items_view(out@);
        lemma_items_view(items@);
    }
    assert(items_view(out@) =~= items_view(items@));
    out
}

} // verus!
