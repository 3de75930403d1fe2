//! What is proposed for a prefix.

use crate::backend::BackendView;
use crate::completion::{
    binding_item, candidates, completions, is_first, is_shown, matches_prefix, shown, symbol_item,
    BindingView,
};
use crate::cursor::word_prefix;
use crate::laws::characters::law_capital_letters;
use crate::protocol::{CompletionItemKind, CompletionItemView, Position, SymbolKind};
use crate::strings::{char_is_uppercase, lowercase};
use crate::symbols::SymbolDefView;
use vstd::prelude::*;

verus! {

/// Whether a name starts with a capital letter.
pub open spec fn starts_capital(name: Seq<char>) -> bool {
    name.len() > 0 && (if (name[0] as u32) < 0x80 {
        'A' <= name[0] && name[0] <= 'Z'
    } else {
        char_is_uppercase(name[0])
    })
}

/// Whether the lowercase form of a name starts with that of a prefix.
pub open spec fn starts_in_lowercase(name: Seq<char>, prefix: Seq<char>) -> bool {
    &&& lowercase(prefix).len() <= lowercase(name).len()
    &&& lowercase(name).take(lowercase(prefix).len() as int) == lowercase(prefix)
}

/// How a bound name is proposed: as a function if it starts with a capital
/// letter, else as a variable.
pub open spec fn proposal_of_binding(b: BindingView) -> CompletionItemView {
    CompletionItemView {
        label: b.name,
        kind: if starts_capital(b.name) {
            CompletionItemKind::Function
        } else {
            CompletionItemKind::Variable
        },
        detail: seq!['S', 'y', 'm', 'a', ' ', 'b', 'u', 'i', 'l', 't', 'i', 'n'],
        insert_text: b.name,
    }
}

/// How a defined name is proposed: by its kind and with its detail.
pub open spec fn proposal_of_definition(d: SymbolDefView) -> CompletionItemView {
    CompletionItemView {
        label: d.name,
        kind: if d.kind == SymbolKind::Function {
            CompletionItemKind::Function
        } else if d.kind == SymbolKind::Class {
            CompletionItemKind::Class
        } else if d.kind == SymbolKind::Module {
            CompletionItemKind::Module
        } else {
            CompletionItemKind::Variable
        },
        detail: d.detail,
        insert_text: d.name,
    }
}

proof fn lemma_proposals(b: BindingView, d: SymbolDefView)
    ensures
        binding_item(b) == proposal_of_binding(b),
        symbol_item(d) == proposal_of_definition(d),
{
    reveal_strlit("Syma builtin");
    assert("Syma builtin"@ =~= seq!['S', 'y', 'm', 'a', ' ', 'b', 'u', 'i', 'l', 't', 'i', 'n']);
    if b.name.len() > 0 {
        law_capital_letters(b.name[0]);
    }
}

proof fn lemma_prefix(name: Seq<char>, prefix: Seq<char>)
    ensures
        matches_prefix(name, prefix) <==> starts_in_lowercase(name, prefix),
{
    let s = lowercase(name);
    let p = lowercase(prefix);
    if p.len() <= s.len() {
        assert(s.subrange(0, p.len() as int) =~= s.take(p.len() as int));
    }
}

proof fn lemma_shown_prefix(
    all: Seq<CompletionItemView>,
    x: CompletionItemView,
    count: nat,
    prefix: Seq<char>,
)
    requires
        count <= all.len(),
    ensures
        shown(all.push(x), count, prefix) == shown(all, count, prefix),
    decreases count,
{
    if count > 0 {
        lemma_shown_prefix(all, x, (count - 1) as nat, prefix);
        let n = count - 1;
        let more = all.push(x);
        assert(more[n] == all[n]);
        assert(forall|j: int| 0 <= j < n ==> #[trigger] more[j] == all[j]);
        assert(is_first(more, n) == is_first(all, n)) by {
            if is_first(more, n) {
                assert forall|j: int| 0 <= j < n implies (#[trigger] all[j]).label
                    != all[n].label by {
                    assert(more[j].label != more[n].label);
                }
            }
        }
        assert(is_shown(more, n, prefix) == is_shown(all, n, prefix));
    }
}

proof fn lemma_shown_push(
    all: Seq<CompletionItemView>,
    x: CompletionItemView,
    prefix: Seq<char>,
    fresh: bool,
)
    requires
        fresh <==> forall|j: int| 0 <= j < all.len() ==> (#[trigger] all[j]).label != x.label,
    ensures
        shown(all.push(x), all.len() + 1, prefix) == shown(all, all.len(), prefix) + (if fresh
            && starts_in_lowercase(x.label, prefix) {
            seq![x]
        } else {
            Seq::empty()
        }),
{
    let more = all.push(x);
    lemma_shown_prefix(all, x, all.len(), prefix);
    lemma_prefix(x.label, prefix);
    assert(more[all.len() as int] == x);
    assert(forall|j: int| 0 <= j < all.len() ==> #[trigger] more[j] == all[j]);
    assert(is_first(more, all.len() as int) == fresh) by {
        if is_first(more, all.len() as int) {
            assert forall|j: int| 0 <= j < all.len() implies (#[trigger] all[j]).label
                != x.label by {
                assert(more[j].label != more[all.len() as int].label);
            }
        }
    }
    let before = shown(all, all.len(), prefix);
    assert(before + Seq::<CompletionItemView>::empty() =~= before);
    assert(before.push(x) =~= before + seq![x]);
}

/// A further definition is proposed behind all others, if nothing of its name
/// comes before it and its name starts with the prefix, in whatever case. What
/// it inserts is its name, whatever its kind.
pub proof fn law_a_further_definition_is_proposed(
    bindings: Seq<BindingView>,
    defs: Seq<SymbolDefView>,
    d: SymbolDefView,
    prefix: Seq<char>,
)
    ensures
        completions(bindings, defs.push(d), prefix) == completions(bindings, defs, prefix) + (if (
        forall|j: int| 0 <= j < bindings.len() ==> (#[trigger] bindings[j]).name != d.name) && (
        forall|j: int| 0 <= j < defs.len() ==> (#[trigger] defs[j]).name != d.name)
            && starts_in_lowercase(d.name, prefix) {
            seq![proposal_of_definition(d)]
        } else {
            Seq::empty()
        }),
{
    let all = candidates(bindings, defs);
    let x = symbol_item(d);
    let n = bindings.len();
    let fresh = (forall|j: int| 0 <= j < bindings.len() ==> (#[trigger] bindings[j]).name != d.name)
        && (forall|j: int| 0 <= j < defs.len() ==> (#[trigger] defs[j]).name != d.name);
    assert(forall|j: int| 0 <= j < n ==> (#[trigger] all[j]).label == bindings[j].name);
    assert(forall|j: int| n <= j < all.len() ==> (#[trigger] all[j]).label == defs[j - n].name);
    assert(fresh <==> forall|j: int| 0 <= j < all.len() ==> (#[trigger] all[j]).label != x.label)
        by {
        if forall|j: int| 0 <= j < all.len() ==> (#[trigger] all[j]).label != x.label {
            assert forall|j: int| 0 <= j < n implies (#[trigger] bindings[j]).name != d.name by {
                assert(all[j].label != x.label);
            }
            assert forall|j: int| 0 <= j < defs.len() implies (#[trigger] defs[j]).name != d.name by {
                assert(all[n + j].label != x.label);
            }
        }
    }
    assert(candidates(bindings, defs.push(d)) =~= all.push(x));
    lemma_shown_push(all, x, prefix, fresh);
    lemma_proposals(BindingView { name: d.name, value: d.name }, d);
}

/// A further binding is proposed behind all others, if none of its name comes
/// before it and its name starts with the prefix, in whatever case. Without
/// bindings and definitions nothing is proposed.
pub proof fn law_a_further_binding_is_proposed(
    bindings: Seq<BindingView>,
    b: BindingView,
    prefix: Seq<char>,
)
    ensures
        completions(Seq::empty(), Seq::empty(), prefix) == Seq::<CompletionItemView>::empty(),
        completions(bindings.push(b), Seq::empty(), prefix) == completions(
            bindings,
            Seq::empty(),
            prefix,
        ) + (if (forall|j: int| 0 <= j < bindings.len() ==> (#[trigger] bindings[j]).name != b.name)
            && starts_in_lowercase(b.name, prefix) {
            seq![proposal_of_binding(b)]
        } else {
            Seq::empty()
        }),
{
    let none = Seq::<SymbolDefView>::empty();
    let all = candidates(bindings, none);
    let x = binding_item(b);
    let fresh = forall|j: int|
        0 <= j < bindings.len() ==> (#[trigger] bindings[j]).name != b.name;
    assert(forall|j: int| 0 <= j < all.len() ==> (#[trigger] all[j]).label == bindings[j].name);
    assert(fresh <==> forall|j: int| 0 <= j < all.len() ==> (#[trigger] all[j]).label != x.label)
        by {
        if forall|j: int| 0 <= j < all.len() ==> (#[trigger] all[j]).label != x.label {
            assert forall|j: int| 0 <= j < bindings.len() implies (#[trigger] bindings[j]).name
                != b.name by {
                assert(all[j].label != x.label);
            }
        }
    }
    assert(candidates(bindings.push(b), none) =~= all.push(x));
    lemma_shown_push(all, x, prefix, fresh);
    lemma_proposals(
        b,
        SymbolDefView {
            name: b.name,
            uri: b.name,
            range: crate::protocol::Range::zero_spec(),
            kind: SymbolKind::Variable,
            detail: b.name,
            signature: None,
        },
    );
}

/// What a proposal inserts is its label, and its label is the name of a binding
/// or of a definition.
pub proof fn law_proposals_insert_their_names(
    bindings: Seq<BindingView>,
    defs: Seq<SymbolDefView>,
    prefix: Seq<char>,
)
    ensures
        forall|k: int|
            0 <= k < completions(bindings, defs, prefix).len() ==> (#[trigger] completions(
                bindings,
                defs,
                prefix,
            )[k]).insert_text == completions(bindings, defs, prefix)[k].label && is_a_name(
                bindings,
                defs,
                completions(bindings, defs, prefix)[k].label,
            ),
{
    let all = candidates(bindings, defs);
    assert forall|n: int| 0 <= n < all.len() implies (#[trigger] all[n]).insert_text
        == all[n].label && is_a_name(bindings, defs, all[n].label) by {
        if n < bindings.len() {
            assert(bindings[n].name == all[n].label);
        } else {
            assert(defs[n - bindings.len()].name == all[n].label);
        }
    }
    lemma_shown_names(all, all.len(), prefix, bindings, defs);
}

/// Whether a text is the name of a binding or of a definition.
pub open spec fn is_a_name(
    bindings: Seq<BindingView>,
    defs: Seq<SymbolDefView>,
    label: Seq<char>,
) -> bool {
    ||| exists|i: int| 0 <= i < bindings.len() && (#[trigger] bindings[i]).name == label
    ||| exists|i: int| 0 <= i < defs.len() && (#[trigger] defs[i]).name == label
}

proof fn lemma_shown_names(
    all: Seq<CompletionItemView>,
    count: nat,
    prefix: Seq<char>,
    bindings: Seq<BindingView>,
    defs: Seq<SymbolDefView>,
)
    requires
        count <= all.len(),
        forall|n: int|
            0 <= n < all.len() ==> (#[trigger] all[n]).insert_text == all[n].label && is_a_name(
                bindings,
                defs,
                all[n].label,
            ),
    ensures
        forall|k: int|
            0 <= k < shown(all, count, prefix).len() ==> (#[trigger] shown(
                all,
                count,
                prefix,
            )[k]).insert_text == shown(all, count, prefix)[k].label && is_a_name(
                bindings,
                defs,
                shown(all, count, prefix)[k].label,
            ),
    decreases count,
{
    if count > 0 {
        lemma_shown_names(all, (count - 1) as nat, prefix, bindings, defs);
        let before = shown(all, (count - 1) as nat, prefix);
        let after = shown(all, count, prefix);
        assert forall|k: int| 0 <= k < after.len() implies (#[trigger] after[k]).insert_text
            == after[k].label && is_a_name(bindings, defs, after[k].label) by {
            if k < before.len() {
                assert(after[k] == before[k]);
            } else {
                assert(after[k] == all[count - 1]);
            }
        }
    }
}

/// The proposals at a cursor are those for the prefix before it, out of the
/// bindings and the definitions of all documents. A document that is not open
/// has no prefix.
pub proof fn law_proposals_at_a_cursor(
    v: BackendView,
    uri: Seq<char>,
    pos: Position,
    bindings: Seq<BindingView>,
)
    ensures
        v.completions(uri, pos, bindings) == completions(
            bindings,
            v.symbol_defs,
            match v.text_of(uri) {
                Some(text) => word_prefix(text, pos),
                None => Seq::empty(),
            },
        ),
        v.can_complete(uri, pos) <==> (v.text_of(uri) is None || crate::cursor::has_word_prefix(
            v.text_of(uri)->Some_0,
            pos,
        )),
{
}

} // verus!
