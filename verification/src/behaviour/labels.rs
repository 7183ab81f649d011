//! What the labels of a function do.
use crate::ir::{BranchOffset, Op};
use crate::labels::{Label, LabelRef, LabelRegistry, ResolvedLabelUser};
use crate::pos::{BytePos, Pos};
use crate::reuse::Reset;
use vstd::prelude::*;

verus! {

/// A registry starts without labels and without branches, and so does one that has been reset.
pub proof fn law_empty()
    ensures
        forall|registry: LabelRegistry| #[trigger]
            call_ensures(LabelRegistry::default, (), registry) ==> {
                &&& registry@.labels.len() == 0
                &&& registry@.users.len() == 0
            },
        forall|registry: &mut LabelRegistry| #[trigger]
            call_ensures(LabelRegistry::reset, (registry,), ()) ==> {
                &&& final(registry)@.labels.len() == 0
                &&& final(registry)@.users.len() == 0
            },
{
}

/// A new label is unpinned, differs from all labels before it and changes none of them.
pub proof fn law_new_label()
    ensures
        forall|registry: &mut LabelRegistry, lref: LabelRef| #[trigger]
            call_ensures(LabelRegistry::new_label, (registry,), lref) ==> {
                &&& lref@ == registry@.labels.len()
                &&& final(registry)@.labels.len() == registry@.labels.len() + 1
                &&& final(registry)@.labels[lref@ as int] is None
                &&& forall|i: int|
                    0 <= i < registry@.labels.len() ==> (#[trigger] final(registry)@.labels[i])
                        == registry@.labels[i]
                &&& final(registry)@.users == registry@.users
            },
{
}

/// Pinning a label pins it to the position and changes no other label, whether pinned or not.
pub proof fn law_pin_label(lref: LabelRef, pos: Pos<Op>)
    ensures
        forall|registry: &mut LabelRegistry|
            #[trigger] call_ensures(LabelRegistry::pin_label, (registry, lref, pos), ())
                && lref@ < registry@.labels.len() ==> {
                &&& final(registry)@.labels.len() == registry@.labels.len()
                &&& final(registry)@.labels[lref@ as int] == Some(pos@)
                &&& forall|i: int|
                    0 <= i < registry@.labels.len() && i != lref@ ==> (
                    #[trigger] final(registry)@.labels[i]) == registry@.labels[i]
                &&& final(registry)@.users == registry@.users
            },
{
}

/// Pinning a label if it is unpinned pins it to the position in this case only, and changes no
/// other label, whether pinned or not.
pub proof fn law_pin_label_if_unpinned(lref: LabelRef, pos: Pos<Op>)
    ensures
        forall|registry: &mut LabelRegistry|
            #[trigger] call_ensures(LabelRegistry::pin_label_if_unpinned, (registry, lref, pos), ())
                && lref@ < registry@.labels.len() ==> {
                &&& final(registry)@.labels.len() == registry@.labels.len()
                &&& match registry@.labels[lref@ as int] {
                    Some(before) => final(registry)@.labels[lref@ as int] == Some(before),
                    None => final(registry)@.labels[lref@ as int] == Some(pos@),
                }
                &&& forall|i: int|
                    0 <= i < registry@.labels.len() && i != lref@ ==> (
                    #[trigger] final(registry)@.labels[i]) == registry@.labels[i]
                &&& final(registry)@.users == registry@.users
            },
{
}

/// A label is read as it is.
pub proof fn law_get_label(registry: LabelRegistry, lref: LabelRef)
    ensures
        forall|label: Label| #[trigger]
            call_ensures(LabelRegistry::get_label, (&registry, lref), label) ==> match label {
                Label::Pinned(pos) => registry@.labels[lref@ as int] == Some(pos@),
                Label::Unpinned => registry@.labels[lref@ as int] is None,
            },
        forall|pinned: bool| #[trigger]
            call_ensures(LabelRegistry::is_pinned, (&registry, lref), pinned) ==> (pinned
                <==> registry@.labels[lref@ as int] is Some),
{
}

/// A label that has been pinned is read back with its position, and all others as they were.
pub proof fn law_get_after_pin(lref: LabelRef, pos: Pos<Op>, other: LabelRef)
    ensures
        forall|registry: &mut LabelRegistry, label: Label|
            {
                &&& #[trigger] call_ensures(LabelRegistry::pin_label, (registry, lref, pos), ())
                &&& #[trigger] call_ensures(LabelRegistry::get_label, (final(registry), other), label)
                &&& lref@ < registry@.labels.len()
                &&& other@ < registry@.labels.len()
            } ==> label@ == (if other@ == lref@ {
                Some(pos@)
            } else {
                registry@.labels[other@ as int]
            }),
{
}

/// A branch is registered as given and behind all others, and changes no label.
pub proof fn law_new_user(dst: LabelRef, src: BytePos, pos: Pos<BranchOffset>)
    ensures
        forall|registry: &mut LabelRegistry| #[trigger]
            call_ensures(LabelRegistry::new_user, (registry, dst, src, pos), ()) ==> {
                let user = final(registry)@.users.last();
                &&& final(registry)@.labels == registry@.labels
                &&& final(registry)@.users.len() == registry@.users.len() + 1
                &&& user.label == dst@
                &&& user.src == src@
                &&& user.pos == pos@
                &&& forall|i: int|
                    0 <= i < registry@.users.len() ==> (#[trigger] final(registry)@.users[i])
                        == registry@.users[i]
            },
{
}

/// Every registered branch is resolved to the position that its label is pinned to, in order.
pub proof fn law_resolved_users(registry: LabelRegistry)
    requires
        forall|i: int|
            0 <= i < registry@.users.len() ==> {
                let label = (#[trigger] registry@.users[i]).label;
                label < registry@.labels.len() && registry@.labels[label as int] is Some
            },
    ensures
        forall|users: Vec<ResolvedLabelUser>| #[trigger]
            call_ensures(LabelRegistry::resolved_users, (&registry,), users) ==> {
                &&& users@.len() == registry@.users.len()
                &&& forall|i: int|
                    0 <= i < users@.len() ==> {
                        let user = registry@.users[i];
                        &&& (#[trigger] users@[i]).src@ == user.src
                        &&& users@[i].pos@ == user.pos
                        &&& Some(users@[i].dst@) == registry@.labels[user.label as int]
                    }
            },
{
}

/// Every label of the registry can be read and pinned, and branches to every label can be resolved
/// once all of their labels are pinned.
pub proof fn law_calls_are_admitted(registry: LabelRegistry, lref: LabelRef, pos: Pos<Op>)
    ensures
        lref@ < registry@.labels.len() ==> call_requires(
            LabelRegistry::get_label,
            (&registry, lref),
        ),
        lref@ < registry@.labels.len() ==> call_requires(
            LabelRegistry::is_pinned,
            (&registry, lref),
        ),
        (forall|i: int|
            0 <= i < registry@.users.len() ==> {
                let label = (#[trigger] registry@.users[i]).label;
                label < registry@.labels.len() && registry@.labels[label as int] is Some
            }) ==> call_requires(LabelRegistry::resolved_users, (&registry,)),
        forall|other: &mut LabelRegistry| #[trigger]
            call_requires(LabelRegistry::new_label, (other,)),
        forall|other: &mut LabelRegistry|
            lref@ < other@.labels.len() && other@.labels[lref@ as int] is None
                ==> #[trigger] call_requires(LabelRegistry::pin_label, (other, lref, pos)),
        forall|other: &mut LabelRegistry|
            lref@ < other@.labels.len() ==> #[trigger] call_requires(
                LabelRegistry::pin_label_if_unpinned,
                (other, lref, pos),
            ),
{
}

} // verus!
