//! Completion lists: which names are offered for a prefix, and in which order.

use crate::protocol::{CompletionItem, CompletionItemKind, CompletionItemView, SymbolKind};
use crate::semantic::{name_starts_uppercase, starts_uppercase};
use crate::strings::{chars_of, copied, lowercase, to_lower};
use crate::symbols::{SymbolDef, SymbolDefView};
use vstd::hash_set::StringHashSet;
use vstd::prelude::*;

verus! {

/// A name that the language environment binds, and its value as it is
/// printed.
#[derive(Debug)]
pub struct Binding {
    pub name: String,
    pub value: String,
}

/// A binding, with its texts as character sequences.
#[verifier::ext_equal]
pub struct BindingView {
    pub name: Seq<char>,
    pub value: Seq<char>,
}

impl DeepView for Binding {
    type V = BindingView;

    open spec fn deep_view(&self) -> BindingView {
        BindingView { name: self.name@, value: self.value@ }
    }
}

/// What a name of the environment is offered as.
pub open spec fn binding_kind(uppercase: bool) -> CompletionItemKind {
    if uppercase {
        CompletionItemKind::Function
    } else {
        CompletionItemKind::Variable
    }
}

/// The proposal of a name of the environment.
pub open spec fn binding_item(b: BindingView) -> CompletionItemView {
    CompletionItemView {
        label: b.name,
        kind: binding_kind(starts_uppercase(b.name)),
        detail: "Syma builtin"@,
        insert_text: b.name,
    }
}

/// What a symbol is offered as.
pub open spec fn symbol_item_kind(kind: SymbolKind) -> CompletionItemKind {
    match kind {
        SymbolKind::Function => CompletionItemKind::Function,
        SymbolKind::Class => CompletionItemKind::Class,
        SymbolKind::Module => CompletionItemKind::Module,
        SymbolKind::Variable => CompletionItemKind::Variable,
    }
}

/// The proposal of a defined symbol.
pub open spec fn symbol_item(d: SymbolDefView) -> CompletionItemView {
    CompletionItemView {
        label: d.name,
        kind: symbol_item_kind(d.kind),
        detail: d.detail,
        insert_text: d.name,
    }
}

/// All proposals: first the environment's, then the defined symbols'.
pub open spec fn candidates(bindings: Seq<BindingView>, defs: Seq<SymbolDefView>) -> Seq<
    CompletionItemView,
> {
    Seq::new(bindings.len(), |i: int| binding_item(bindings[i])) + Seq::new(
        defs.len(),
        |i: int| symbol_item(defs[i]),
    )
}

/// Whether a name starts with a prefix, both in lowercase.
pub open spec fn matches_prefix(name: Seq<char>, prefix: Seq<char>) -> bool {
    lowercase(prefix).is_prefix_of(lowercase(name))
}

/// Whether no earlier proposal has the label of proposal `n`.
pub open spec fn is_first(all: Seq<CompletionItemView>, n: int) -> bool {
    forall|j: int| 0 <= j < n ==> (#[trigger] all[j]).label != all[n].label
}

/// Whether proposal `n` is shown for a prefix.
pub open spec fn is_shown(all: Seq<CompletionItemView>, n: int, prefix: Seq<char>) -> bool {
    is_first(all, n) && matches_prefix(all[n].label, prefix)
}

/// Those of the first `count` proposals that are shown for a prefix.
pub open spec fn shown(all: Seq<CompletionItemView>, count: nat, prefix: Seq<char>) -> Seq<
    CompletionItemView,
>
    decreases count,
{
    if count == 0 {
        Seq::empty()
    } else {
        let before = shown(all, (count - 1) as nat, prefix);
        if is_shown(all, count - 1, prefix) {
            before.push(all[count - 1])
        } else {
            before
        }
    }
}

/// The completion list for a prefix.
pub open spec fn completions(
    bindings: Seq<BindingView>,
    defs: Seq<SymbolDefView>,
    prefix: Seq<char>,
) -> Seq<CompletionItemView> {
    let all = candidates(bindings, defs);
    shown(all, all.len(), prefix)
}

// ---------------------------------------------------------------------
// Laws
// ---------------------------------------------------------------------

/// Whether `item` is one of the first `count` proposals and is shown.
pub open spec fn is_shown_item(
    all: Seq<CompletionItemView>,
    count: nat,
    prefix: Seq<char>,
    item: CompletionItemView,
) -> bool {
    exists|n: int| 0 <= n < count && is_shown(all, n, prefix) && item == #[trigger] all[n]
}

proof fn lemma_shown_sound(all: Seq<CompletionItemView>, count: nat, prefix: Seq<char>)
    requires
        count <= all.len(),
    ensures
        forall|k: int|
            0 <= k < shown(all, count, prefix).len() ==> is_shown_item(
                all,
                count,
                prefix,
                #[trigger] shown(all, count, prefix)[k],
            ),
        forall|a: int, b: int|
            0 <= a < b < shown(all, count, prefix).len() ==> (#[trigger] shown(
                all,
                count,
                prefix,
            )[a]).label != (#[trigger] shown(all, count, prefix)[b]).label,
    decreases count,
{
    if count > 0 {
        let before = shown(all, (count - 1) as nat, prefix);
        let after = shown(all, count, prefix);
        lemma_shown_sound(all, (count - 1) as nat, prefix);
        assert forall|k: int| 0 <= k < after.len() implies is_shown_item(
            all,
            count,
            prefix,
            #[trigger] after[k],
        ) by {
            if k < before.len() {
                let n = choose|n: int|
                    0 <= n < count - 1 && is_shown(all, n, prefix) && before[k]
                        == #[trigger] all[n];
                assert(after[k] == all[n]);
            } else {
                assert(after[k] == all[count - 1]);
            }
        }
        assert forall|a: int, b: int| 0 <= a < b < after.len() implies (#[trigger] after[a]).label
            != (#[trigger] after[b]).label by {
            assert(after[a] == before[a]);
            if b < before.len() {
                assert(after[b] == before[b]);
            } else {
                let n = choose|n: int|
                    0 <= n < count - 1 && is_shown(all, n, prefix) && before[a]
                        == #[trigger] all[n];
                assert(all[n].label != all[count - 1].label);
            }
        }
    }
}

proof fn lemma_shown_complete(
    all: Seq<CompletionItemView>,
    count: nat,
    prefix: Seq<char>,
    n: int,
)
    requires
        0 <= n < count <= all.len(),
        is_shown(all, n, prefix),
    ensures
        shown(all, count, prefix).contains(all[n]),
    decreases count,
{
    let before = shown(all, (count - 1) as nat, prefix);
    let after = shown(all, count, prefix);
    if n < count - 1 {
        lemma_shown_complete(all, (count - 1) as nat, prefix, n);
        let k = choose|k: int| 0 <= k < before.len() && before[k] == all[n];
        assert(after[k] == all[n]);
    } else {
        assert(after[before.len() as int] == all[n]);
    }
}

/// No label is proposed twice, and every label starts with the prefix,
/// whatever the case of its letters.
pub proof fn law_completions_are_distinct_and_match(
    bindings: Seq<BindingView>,
    defs: Seq<SymbolDefView>,
    prefix: Seq<char>,
)
    ensures
        ({
            let items = completions(bindings, defs, prefix);
            &&& forall|a: int, b: int|
                0 <= a < b < items.len() ==> (#[trigger] items[a]).label != (
                #[trigger] items[b]).label
            &&& forall|a: int|
                0 <= a < items.len() ==> matches_prefix((#[trigger] items[a]).label, prefix)
        }),
{
    let all = candidates(bindings, defs);
    lemma_shown_sound(all, all.len(), prefix);
    let items = completions(bindings, defs, prefix);
    assert forall|a: int| 0 <= a < items.len() implies matches_prefix(
        (#[trigger] items[a]).label,
        prefix,
    ) by {
        let n = choose|n: int|
            0 <= n < all.len() && is_shown(all, n, prefix) && items[a] == #[trigger] all[n];
        assert(is_shown(all, n, prefix));
    }
}

/// Every name of the environment and every defined symbol that starts with
/// the prefix is proposed, once.
pub proof fn law_every_matching_name_is_proposed(
    bindings: Seq<BindingView>,
    defs: Seq<SymbolDefView>,
    prefix: Seq<char>,
    n: int,
)
    requires
        0 <= n < candidates(bindings, defs).len(),
        matches_prefix(candidates(bindings, defs)[n].label, prefix),
    ensures
        exists|k: int|
            0 <= k < completions(bindings, defs, prefix).len() && (#[trigger] completions(
                bindings,
                defs,
                prefix,
            )[k]).label == candidates(bindings, defs)[n].label,
    decreases n,
{
    let all = candidates(bindings, defs);
    if is_first(all, n) {
        lemma_shown_complete(all, all.len(), prefix, n);
        let items = completions(bindings, defs, prefix);
        let k = choose|k: int| 0 <= k < items.len() && items[k] == all[n];
        assert(items[k].label == all[n].label);
    } else {
        let j = choose|j: int| 0 <= j < n && (#[trigger] all[j]).label == all[n].label;
        law_every_matching_name_is_proposed(bindings, defs, prefix, j);
    }
}

// ---------------------------------------------------------------------
// Computing them
// ---------------------------------------------------------------------

/// Whether a text starts with another.
pub fn starts_with(s: &str, prefix: &str) -> (r: bool)
    ensures
        r == prefix@.is_prefix_of(s@),
{
    let a: Vec<char> = chars_of(s);
    let b: Vec<char> = chars_of(prefix);
    if b.len() > a.len() {
        return false;
    }
    let mut i: usize = 0;
    while i < b.len()
        invariant
            a@ == s@,
            b@ == prefix@,
            i <= b@.len() <= a@.len(),
            forall|k: int| 0 <= k < i ==> #[trigger] b@[k] == a@[k],
        decreases b@.len() - i,
    {
        if a[i] != b[i] {
            assert(s@.subrange(0, prefix@.len() as int)[i as int] != prefix@[i as int]);
            return false;
        }
        i += 1;
    }
    assert(prefix@ =~= s@.subrange(0, prefix@.len() as int));
    true
}

/// What a name of the environment is offered as.
pub fn kind_of_binding(uppercase: bool) -> (r: CompletionItemKind)
    ensures
        r == binding_kind(uppercase),
{
    if uppercase {
        CompletionItemKind::Function
    } else {
        CompletionItemKind::Variable
    }
}

/// What a symbol is offered as.
pub fn kind_of_symbol(kind: SymbolKind) -> (r: CompletionItemKind)
    ensures
        r == symbol_item_kind(kind),
{
    match kind {
        SymbolKind::Function => CompletionItemKind::Function,
        SymbolKind::Class => CompletionItemKind::Class,
        SymbolKind::Module => CompletionItemKind::Module,
        SymbolKind::Variable => CompletionItemKind::Variable,
    }
}

/// Whether the set `seen` holds the labels of the first `count` proposals.
spec fn holds_labels(seen: Set<Seq<char>>, all: Seq<CompletionItemView>, count: int) -> bool {
    forall|label: Seq<char>|
        #![trigger seen.contains(label)]
        seen.contains(label) <==> exists|j: int| 0 <= j < count && (#[trigger] all[j]).label == label
}

/// Adds one proposal to the list if it is shown.
fn consider(
    items: &mut Vec<CompletionItem>,
    seen: &mut StringHashSet,
    item: CompletionItem,
    prefix_lower: &str,
    Ghost(all): Ghost<Seq<CompletionItemView>>,
    Ghost(n): Ghost<nat>,
    Ghost(prefix): Ghost<Seq<char>>,
)
    requires
        n < all.len(),
        item.deep_view() == all[n as int],
        prefix_lower@ == lowercase(prefix),
        old(items).deep_view() == shown(all, n, prefix),
        holds_labels(old(seen)@, all, n as int),
    ensures
        final(items).deep_view() == shown(all, n + 1, prefix),
        holds_labels(final(seen)@, all, n as int + 1),
{
    let ghost before = seen@;
    let fresh: bool = seen.insert(copied(item.label.as_str()));
    proof {
        assert(fresh == is_first(all, n as int)) by {
            if before.contains(all[n as int].label) {
                let j = choose|j: int|
                    0 <= j < n && (#[trigger] all[j]).label == all[n as int].label;
            }
        }
        assert forall|label: Seq<char>|
            #![trigger seen@.contains(label)]
            seen@.contains(label) <==> exists|j: int|
                0 <= j < n + 1 && (#[trigger] all[j]).label == label by {
            if before.contains(label) {
                let j = choose|j: int| 0 <= j < n && (#[trigger] all[j]).label == label;
                assert(all[j].label == label);
            }
            if label == all[n as int].label {
                assert(all[n as int].label == label);
            }
        }
    }
    if fresh {
        let lower: String = to_lower(item.label.as_str());
        if starts_with(lower.as_str(), prefix_lower) {
            items.push(item);
            assert(items.deep_view() =~= old(items).deep_view().push(all[n as int]));
        }
    }
}

/// The completion list for a prefix.
pub fn complete(bindings: &Vec<Binding>, defs: &Vec<SymbolDef>, prefix: &str) -> (r: Vec<
    CompletionItem,
>)
    ensures
        r.deep_view() == completions(bindings.deep_view(), defs.deep_view(), prefix@),
{
    let prefix_lower: String = to_lower(prefix);
    let ghost all = candidates(bindings.deep_view(), defs.deep_view());
    let mut items: Vec<CompletionItem> = Vec::new();
    let mut seen: StringHashSet = StringHashSet::new();
    assert(items.deep_view() =~= Seq::<CompletionItemView>::empty());
    let mut i: usize = 0;
    while i < bindings.len()
        invariant
            i <= bindings@.len(),
            all == candidates(bindings.deep_view(), defs.deep_view()),
            prefix_lower@ == lowercase(prefix@),
            items.deep_view() == shown(all, i as nat, prefix@),
            holds_labels(seen@, all, i as int),
        decreases bindings@.len() - i,
    {
        let b: &Binding = &bindings[i];
        let uppercase: bool = name_starts_uppercase(b.name.as_str());
        let item = CompletionItem {
            label: copied(b.name.as_str()),
            kind: kind_of_binding(uppercase),
            detail: copied("Syma builtin"),
            insert_text: copied(b.name.as_str()),
        };
        assert(all[i as int] == binding_item(bindings.deep_view()[i as int]));
        consider(
            &mut items,
            &mut seen,
            item,
            prefix_lower.as_str(),
            Ghost(all),
            Ghost(i as nat),
            Ghost(prefix@),
        );
        i += 1;
    }
    let mut j: usize = 0;
    while j < defs.len()
        invariant
            j <= defs@.len(),
            i == bindings@.len(),
            all == candidates(bindings.deep_view(), defs.deep_view()),
            prefix_lower@ == lowercase(prefix@),
            items.deep_view() == shown(all, (i + j) as nat, prefix@),
            holds_labels(seen@, all, i + j),
        decreases defs@.len() - j,
    {
        let d: &SymbolDef = &defs[j];
        let item = CompletionItem {
            label: copied(d.name.as_str()),
            kind: kind_of_symbol(d.kind),
            detail: copied(d.detail.as_str()),
            insert_text: copied(d.name.as_str()),
        };
        assert(all[i + j] == symbol_item(defs.deep_view()[j as int]));
        consider(
            &mut items,
            &mut seen,
            item,
            prefix_lower.as_str(),
            Ghost(all),
            Ghost((i + j) as nat),
            Ghost(prefix@),
        );
        j += 1;
    }
    items
}

} // verus!
