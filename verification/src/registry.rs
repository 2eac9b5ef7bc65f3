//! The selectable-item registry: an insertion-ordered list of
//! `(key, label)` menu entries, built once by appending and read-only
//! afterwards, together with its rendered-label view and the mapping from
//! a set of picked positions back to the entries in registry order.

use vstd::prelude::*;

use crate::text::int_rep;
use crate::text::i32_to_string;

verus! {

/// One menu entry: a caller-assigned integer key and a display label.
#[derive(Debug)]
pub struct SelectableItem {
    pub key: i32,
    pub text: String,
}

impl View for SelectableItem {
    type V = (int, Seq<char>);

    open spec fn view(&self) -> (int, Seq<char>) {
        (self.key as int, self.text@)
    }
}

impl Clone for SelectableItem {
    fn clone(&self) -> (r: Self)
        ensures
            r@ == self@,
    {
        SelectableItem { key: self.key, text: self.text.clone() }
    }
}

impl SelectableItem {
    /// Creates an entry with the given key and label.
    pub fn new(key: i32, text: &str) -> (r: Self)
        ensures
            r@ == (key as int, text@),
    {
        SelectableItem { key, text: text.to_owned() }
    }
}

/// The key/label pairs of a sequence of entries, in order.
pub open spec fn items_view(options: Seq<SelectableItem>) -> Seq<(int, Seq<char>)> {
    Seq::new(options.len(), |i: int| options[i]@)
}

/// The ordered registry of menu entries. Its view is the sequence of
/// key/label pairs in insertion order.
#[derive(Debug)]
pub struct DiskSpaceOptimizerItems {
    pub options: Vec<SelectableItem>,
}

impl View for DiskSpaceOptimizerItems {
    type V = Seq<(int, Seq<char>)>;

    open spec fn view(&self) -> Seq<(int, Seq<char>)> {
        items_view(self.options@)
    }
}

impl DiskSpaceOptimizerItems {
    /// Creates an empty registry.
    pub fn new() -> (r: Self)
        ensures
            r@.len() == 0,
    {
        DiskSpaceOptimizerItems { options: Vec::new() }
    }

    /// Returns the registry extended by one entry at the end.
    pub fn with_option(self, option: SelectableItem) -> (r: Self)
        ensures
            r@ =~= self@.push(option@),
    {
        let mut options = self.options;
        options.push(option);
        DiskSpaceOptimizerItems { options }
    }

    /// Returns the registry with its entries replaced by the given list.
    pub fn with_options(self, options: Vec<SelectableItem>) -> (r: Self)
        ensures
            r@ == items_view(options@),
    {
        DiskSpaceOptimizerItems { options }
    }

    /// The number of entries.
    pub fn len(&self) -> (r: usize)
        ensures
            r == self@.len(),
    {
        self.options.len()
    }
}

/// How one entry is shown in the prompt: the decimal key, a colon and a
/// space, then the label.
pub open spec fn rendered_label(key: int, label: Seq<char>) -> Seq<char> {
    int_rep(key) + seq![':', ' '] + label
}

/// Renders every entry of the registry for display, in registry order:
/// the result has exactly one `"key: label"` line per entry.
pub fn format_prompt_item(items: &DiskSpaceOptimizerItems) -> (r: Vec<String>)
    ensures
        r@.len() == items@.len(),
        forall|i: int| 0 <= i < r@.len() ==> r@[i]@ == rendered_label(items@[i].0, items@[i].1),
{
    let mut out: Vec<String> = Vec::new();
    let n = items.options.len();
    let mut i: usize = 0;
    while i < n
        invariant
            0 <= i <= n,
            n == items@.len(),
            out@.len() == i,
            forall|j: int| 0 <= j < i ==> out@[j]@ == rendered_label(items@[j].0, items@[j].1),
        decreases n - i,
    {
        let item = &items.options[i];
        let mut line = i32_to_string(item.key);
        line.append(": ");
        line.append(item.text.as_str());
        proof {
            reveal_strlit(": ");
            assert(": "@ =~= seq![':', ' ']);
            assert(line@ =~= rendered_label(items@[i as int].0, items@[i as int].1));
        }
        out.push(line);
        i = i + 1;
    }
    out
}

/// The fixed top-level menu: the five maintenance actions under keys one
/// to five, and the exit entry under key zero, last.
pub fn get_commands() -> (r: DiskSpaceOptimizerItems)
    ensures
        r@.len() == 6,
        r@[0] == (1int, "Remove unnecessary packages"@),
        r@[1] == (2int, "Clean package cache"@),
        r@[2] == (3int, "Uninstall unused applications"@),
        r@[3] == (4int, "Remove old kernel versions"@),
        r@[4] == (5int, "Clean up log files"@),
        r@[5] == (0int, "Exit"@),
{
    DiskSpaceOptimizerItems::new()
        .with_option(SelectableItem::new(1, "Remove unnecessary packages"))
        .with_option(SelectableItem::new(2, "Clean package cache"))
        .with_option(SelectableItem::new(3, "Uninstall unused applications"))
        .with_option(SelectableItem::new(4, "Remove old kernel versions"))
        .with_option(SelectableItem::new(5, "Clean up log files"))
        .with_option(SelectableItem::new(0, "Exit"))
}

/// The default selection state for the top-level prompt: nothing is
/// pre-checked except the trailing entry, by convention the exit entry,
/// so that confirming immediately exits rather than running anything.
pub fn prompt_defaults(items: &DiskSpaceOptimizerItems) -> (r: Vec<bool>)
    requires
        items@.len() > 0,
    ensures
        r@.len() == items@.len(),
        forall|i: int| 0 <= i < r@.len() - 1 ==> r@[i] == false,
        r@[r@.len() - 1] == true,
{
    let n = items.options.len();
    let mut r: Vec<bool> = Vec::new();
    let mut i: usize = 0;
    while i < n - 1
        invariant
            0 <= i <= n - 1,
            n == items@.len(),
            n > 0,
            r@.len() == i,
            forall|j: int| 0 <= j < i ==> r@[j] == false,
        decreases n - i,
    {
        r.push(false);
        i = i + 1;
    }
    r.push(true);
    r
}

/// The positions named by a list of prompt indices, as a set.
pub open spec fn idx_set(indices: Seq<usize>) -> Set<int> {
    Set::new(|i: int| exists|k: int| 0 <= k < indices.len() && indices[k] as int == i)
}

/// The entries among the first `n` whose position is picked, in registry
/// order.
pub open spec fn selected_prefix(
    items: Seq<(int, Seq<char>)>,
    picked: Set<int>,
    n: int,
) -> Seq<(int, Seq<char>)>
    decreases n,
{
    if n <= 0 {
        Seq::empty()
    } else if picked.contains(n - 1) {
        selected_prefix(items, picked, n - 1).push(items[n - 1])
    } else {
        selected_prefix(items, picked, n - 1)
    }
}

/// The entries whose position is picked, in registry order.
pub open spec fn selected_items(items: Seq<(int, Seq<char>)>, picked: Set<int>) -> Seq<
    (int, Seq<char>),
> {
    selected_prefix(items, picked, items.len() as int)
}

/// When nothing is picked, nothing is selected.
proof fn lemma_selected_prefix_empty(items: Seq<(int, Seq<char>)>, picked: Set<int>, n: int)
    requires
        forall|i: int| !picked.contains(i),
    ensures
        selected_prefix(items, picked, n).len() == 0,
    decreases n,
{
    if n > 0 {
        lemma_selected_prefix_empty(items, picked, n - 1);
    }
}

/// Whether `indices` names position `i`.
fn contains_index(indices: &Vec<usize>, i: usize) -> (r: bool)
    ensures
        r == idx_set(indices@).contains(i as int),
{
    let n = indices.len();
    let mut j: usize = 0;
    while j < n
        invariant
            0 <= j <= n,
            n == indices@.len(),
            forall|k: int| 0 <= k < j ==> indices@[k] != i,
        decreases n - j,
    {
        if indices[j] == i {
            return true;
        }
        j = j + 1;
    }
    false
}

/// Maps the indices a prompt returned back to the registry's entries.
/// The result lists, in registry order, exactly those entries whose
/// position occurs in `indices`; the order and multiplicity of `indices`
/// are immaterial, and an index beyond the registry is ignored. An empty
/// index list yields an empty result, never an error.
pub fn selection_from_indices(
    items: &DiskSpaceOptimizerItems,
    indices: &Vec<usize>,
) -> (r: Vec<SelectableItem>)
    ensures
        items_view(r@) =~= selected_items(items@, idx_set(indices@)),
        indices@.len() == 0 ==> r@.len() == 0,
{
    let n = items.options.len();
    let mut out: Vec<SelectableItem> = Vec::new();
    let mut i: usize = 0;
    while i < n
        invariant
            0 <= i <= n,
            n == items@.len(),
            items_view(out@) =~= selected_prefix(items@, idx_set(indices@), i as int),
        decreases n - i,
    {
        if contains_index(indices, i) {
            let picked_item = items.options[i].clone();
            proof {
                assert(items_view(out@.push(picked_item)) =~= items_view(out@).push(
                    items@[i as int],
                ));
            }
            out.push(picked_item);
        }
        i = i + 1;
    }
    proof {
        if indices@.len() == 0 {
            assert(forall|i: int| !idx_set(indices@).contains(i));
            lemma_selected_prefix_empty(items@, idx_set(indices@), n as int);
        }
    }
    out
}

/// Selection is blind to the order in which positions were toggled: two
/// index lists that name the same positions select the same entries, in
/// registry order either way.
pub proof fn lemma_selection_order_independent(
    items: Seq<(int, Seq<char>)>,
    a: Seq<usize>,
    b: Seq<usize>,
)
    requires
        forall|x: usize| a.contains(x) <==> b.contains(x),
    ensures
        selected_items(items, idx_set(a)) == selected_items(items, idx_set(b)),
{
    assert forall|i: int| idx_set(a).contains(i) implies idx_set(b).contains(i) by {
        let k = choose|k: int| 0 <= k < a.len() && a[k] as int == i;
        let x = a[k];
        assert(a.contains(x));
        assert(b.contains(x));
        let k2 = choose|k2: int| 0 <= k2 < b.len() && b[k2] == x;
        assert(b[k2] as int == i);
    }
    assert forall|i: int| idx_set(b).contains(i) implies idx_set(a).contains(i) by {
        let k = choose|k: int| 0 <= k < b.len() && b[k] as int == i;
        let x = b[k];
        assert(b.contains(x));
        assert(a.contains(x));
        let k2 = choose|k2: int| 0 <= k2 < a.len() && a[k2] == x;
        assert(a[k2] as int == i);
    }
    assert(idx_set(a) =~= idx_set(b));
}

} // verus!
