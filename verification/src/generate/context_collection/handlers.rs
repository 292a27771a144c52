//! Handlers: the runtime-special types whose generated shape gives way to a
//! hand-authored one.
use crate::generate::context_collection::fill::lemma_registry_update;
use crate::generate::context_collection::{is_skeleton_of, node_ok, ContextCollection};
use crate::generate::cpp_type::{has_tag, tags_kept, CppType};
use crate::generate::metadata::{is_named, Metadata};
use crate::generate::type_tag::{SpecialKind, TagView, TypeTag};
use vstd::prelude::*;

verus! {

/// What a request to register a handler came to.
#[derive(Clone, Copy, Debug, PartialEq, Eq, Structural)]
pub enum HandlerOutcome {
    /// The node is now claimed by the handler.
    Applied,
    /// The registry has no node under the tag.
    MissingNode,
    /// Another handler had claimed the node.
    AlreadyClaimed,
}

/// The outcome of registering the handler of `kind` for the node under `tag`.
/// A node that no handler has claimed is marked with the kind and loses its
/// base type, since the hand-authored type of the kind takes its place; that
/// type gets a node of its own where it has none. A node that is missing or
/// claimed stays as it is.
pub open spec fn handler_registered(
    before: Seq<CppType>,
    after: Seq<CppType>,
    md: Metadata,
    kind: SpecialKind,
    tag: TagView,
    r: HandlerOutcome,
) -> bool {
    if !has_tag(before, tag) {
        after == before && r == HandlerOutcome::MissingNode
    } else {
        let i = choose|i: int| 0 <= i < before.len() && (#[trigger] before[i]).self_tag@ == tag;
        if before[i].handler is Some {
            after == before && r == HandlerOutcome::AlreadyClaimed
        } else {
            let wrapper = TagView::Grouped(kind);
            &&& r == HandlerOutcome::Applied
            &&& after.len() == before.len() + if has_tag(before, wrapper) {
                0int
            } else {
                1int
            }
            &&& forall|j: int| 0 <= j < before.len() && j != i ==> #[trigger] after[j] == before[j]
            &&& after[i] == (CppType { handler: Some(kind), base: None, ..before[i] })
            &&& !has_tag(before, wrapper) ==> is_skeleton_of(after.last(), md, wrapper)
        }
    }
}

/// The namespace of the type definition that a kind stands for.
pub open spec fn special_namespace(kind: SpecialKind) -> Seq<char> {
    "System"@
}

/// The name of the type definition that a kind stands for.
pub open spec fn special_definition_name(kind: SpecialKind) -> Seq<char> {
    match kind {
        SpecialKind::ObjectRoot => "Object"@,
        SpecialKind::ValueTypeRoot => "ValueType"@,
        SpecialKind::DelegateRoot => "MulticastDelegate"@,
        SpecialKind::EnumRoot => "Enum"@,
        SpecialKind::ArrayRoot => "Array"@,
    }
}

/// Definition `d` is the first one that `kind` stands for.
pub open spec fn is_special_definition(md: Metadata, kind: SpecialKind, d: int) -> bool {
    &&& 0 <= d < md.definitions().len()
    &&& is_named(md.definitions()[d], special_namespace(kind), special_definition_name(kind))
    &&& forall|j: int|
        0 <= j < d ==> !is_named(
            #[trigger] md.definitions()[j],
            special_namespace(kind),
            special_definition_name(kind),
        )
}

/// The outcome of registering the handler of `kind` for the type definition
/// it stands for: as for the tag of that definition; nothing, and
/// `MissingNode`, where the metadata has no such definition.
pub open spec fn special_registered(
    before: Seq<CppType>,
    after: Seq<CppType>,
    md: Metadata,
    kind: SpecialKind,
    r: HandlerOutcome,
) -> bool {
    if exists|d: int| is_special_definition(md, kind, d) {
        let d = choose|d: int| is_special_definition(md, kind, d);
        handler_registered(before, after, md, kind, TagView::DefinitionRef(d as u32), r)
    } else {
        after == before && r == HandlerOutcome::MissingNode
    }
}

impl ContextCollection {
    /// Registers the handler of `kind` for the runtime type that the kind
    /// stands for, found by its name: `System.Object`, `System.ValueType`,
    /// `System.MulticastDelegate`, `System.Enum` or `System.Array`.
    pub fn register_special(&mut self, kind: SpecialKind) -> (r: HandlerOutcome)
        requires
            old(self).wf(),
        ensures
            final(self).wf(),
            final(self).metadata() == old(self).metadata(),
            special_registered(old(self).nodes(), final(self).nodes(), old(self).metadata(), kind, r),
            tags_kept(old(self).nodes(), final(self).nodes()),
    {
        let ghost md = self.metadata;
        let name = match kind {
            SpecialKind::ObjectRoot => "Object",
            SpecialKind::ValueTypeRoot => "ValueType",
            SpecialKind::DelegateRoot => "MulticastDelegate",
            SpecialKind::EnumRoot => "Enum",
            SpecialKind::ArrayRoot => "Array",
        };
        match self.metadata.find_definition("System", name) {
            Some(d) => {
                proof {
                    assert(is_special_definition(md, kind, d as int));
                    let c = choose|c: int| is_special_definition(md, kind, c);
                    if c < d {
                        assert(!is_named(
                            md.definitions()[c],
                            special_namespace(kind),
                            special_definition_name(kind),
                        ));
                    } else if d < c {
                        assert(!is_named(
                            md.definitions()[d as int],
                            special_namespace(kind),
                            special_definition_name(kind),
                        ));
                    }
                }
                let tag = TypeTag::DefinitionRef(d);
                self.register_handler(kind, &tag)
            },
            None => {
                proof {
                    if exists|d: int| is_special_definition(md, kind, d) {
                        let c = choose|c: int| is_special_definition(md, kind, c);
                        assert(is_named(
                            md.definitions()[c],
                            special_namespace(kind),
                            special_definition_name(kind),
                        ));
                    }
                    assert(tags_kept(self.nodes(), self.nodes()));
                }
                HandlerOutcome::MissingNode
            },
        }
    }

    /// Registers the handler of `kind` for the node under `tag`. At most one
    /// handler claims a node: a second request for the same node is refused.
    pub fn register_handler(&mut self, kind: SpecialKind, tag: &TypeTag) -> (r: HandlerOutcome)
        requires
            old(self).wf(),
        ensures
            final(self).wf(),
            final(self).metadata() == old(self).metadata(),
            handler_registered(
                old(self).nodes(),
                final(self).nodes(),
                old(self).metadata(),
                kind,
                tag@,
                r,
            ),
            tags_kept(old(self).nodes(), final(self).nodes()),
    {
        let ghost before = self.nodes@;
        let ghost md = self.metadata;
        let i = match self.find(tag) {
            Some(i) => i,
            None => {
                return HandlerOutcome::MissingNode;
            },
        };
        proof {
            let c = choose|c: int| 0 <= c < before.len() && (#[trigger] before[c]).self_tag@ == tag@;
            if c != i {
                if c < i {
                    assert(before[c].self_tag@ != before[i as int].self_tag@);
                } else {
                    assert(before[i as int].self_tag@ != before[c].self_tag@);
                }
            }
        }
        if self.nodes[i].handler.is_some() {
            return HandlerOutcome::AlreadyClaimed;
        }
        let wrapper = TypeTag::Grouped(kind);
        let handle = self.ensure_node(&wrapper);
        let ghost mid = self.nodes@;
        proof {
            assert(mid.len() >= before.len());
            assert(mid[i as int] == before[i as int]) by {
                if !has_tag(before, wrapper@) {
                    assert(mid.drop_last()[i as int] == before[i as int]);
                }
            }
            assert(has_tag(mid, wrapper@)) by {
                if !has_tag(before, wrapper@) {
                    assert(mid[mid.len() - 1].self_tag@ == wrapper@);
                }
            }
        }
        self.nodes[i].handler = Some(kind);
        self.nodes[i].base = None;
        proof {
            let n = self.nodes@[i as int];
            assert(self.nodes@ =~= mid.update(i as int, n));
            assert(node_ok(md, mid, mid[i as int]));
            lemma_registry_update(md, mid, i as int, n);
            assert forall|j: int| 0 <= j < before.len() && j != i implies #[trigger] self.nodes@[j]
                == before[j] by {
                if !has_tag(before, wrapper@) {
                    assert(mid.drop_last()[j] == before[j]);
                }
            }
            assert(tags_kept(before, self.nodes@)) by {
                assert forall|j: int| 0 <= j < before.len() implies (#[trigger] self.nodes@[j]).self_tag@
                    == before[j].self_tag@ by {
                    if j != i {
                        assert(self.nodes@[j] == before[j]);
                    }
                }
            }
        }
        HandlerOutcome::Applied
    }
}

} // verus!
