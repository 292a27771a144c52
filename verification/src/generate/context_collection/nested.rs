//! Nested types: placing the types that an owner declares inside it.
use crate::generate::config::spec_name_cpp;
use crate::generate::context_collection::fill::lemma_registry_update;
use crate::generate::context_collection::{node_ok, ContextCollection};
use crate::generate::cpp_type::{has_tag, name_views, tags_kept, unique_tags, CppType};
use crate::generate::metadata::{definition_ok, Metadata};
use crate::generate::type_tag::{TagView, TypeTag};
use vstd::prelude::*;

verus! {

/// One of the first `upto` entries of the owner's nested-type table is `t`.
pub open spec fn is_alias_upto(owner: CppType, t: TagView, upto: int) -> bool {
    exists|a: int| 0 <= a < upto && (#[trigger] owner.nested_types[a])@ == t
}

/// The owner's nested-type table names `t`.
pub open spec fn is_alias(owner: CppType, t: TagView) -> bool {
    is_alias_upto(owner, t, owner.nested_types.len() as int)
}

/// The emitted names of definition `d` and of the types it is nested in,
/// outermost first, over at most `fuel` levels of nesting.
pub open spec fn scope_names(md: Metadata, d: int, fuel: nat) -> Seq<Seq<char>>
    decreases fuel,
{
    let def = md.definitions()[d];
    if def.declaring_type is Some && fuel > 0 {
        scope_names(md, def.declaring_type.unwrap() as int, (fuel - 1) as nat).push(
            spec_name_cpp(def.name@),
        )
    } else {
        seq![spec_name_cpp(def.name@)]
    }
}

/// The names under which the types nested in `owner` are declared: those of
/// the definition behind the owner and of all that encloses it; for an
/// owner without a definition, its own name.
pub open spec fn owner_scope(md: Metadata, owner: CppType) -> Seq<Seq<char>> {
    match owner.definition {
        Some(d) => if d < md.definitions().len() {
            scope_names(md, d as int, md.definitions().len())
        } else {
            seq![owner.name@]
        },
        None => seq![owner.name@],
    }
}

/// `after` is `before`, declared inside `owner`: its enclosing names are
/// the scope of the owner.
pub open spec fn placed_in(after: CppType, before: CppType, owner: CppType, md: Metadata) -> bool {
    &&& after == (CppType { enclosing: after.enclosing, declared_in_parent: true, ..before })
    &&& name_views(after.enclosing@) == owner_scope(md, owner)
}

/// The outcome of filling the nested types of the node under `owner`: each
/// node that the owner's nested-type table names is placed in the owner;
/// every other node stays as it is. Nothing happens, and `r` is false, where
/// the owner has no node.
pub open spec fn nested_filled(
    before: Seq<CppType>,
    after: Seq<CppType>,
    md: Metadata,
    owner: TagView,
    r: bool,
) -> bool {
    if !has_tag(before, owner) {
        after == before && !r
    } else {
        let i = choose|i: int| 0 <= i < before.len() && (#[trigger] before[i]).self_tag@ == owner;
        &&& r
        &&& after.len() == before.len()
        &&& forall|j: int|
            0 <= j < before.len() ==> if is_alias(before[i], before[j].self_tag@) {
                placed_in(#[trigger] after[j], before[j], before[i], md)
            } else {
                after[j] == before[j]
            }
    }
}

/// The greatest handle below `upto` of a node whose nested-type table names
/// `t`, if there is one.
pub open spec fn last_owner(nodes: Seq<CppType>, t: TagView, upto: nat) -> Option<int>
    decreases upto,
{
    if upto == 0 {
        None
    } else if is_alias(nodes[upto - 1], t) {
        Some(upto - 1)
    } else {
        last_owner(nodes, t, (upto - 1) as nat)
    }
}

/// What the nested pass leaves of node `j` after the first `upto` owners:
/// the node placed in the last owner that names it, or the node as it was.
pub open spec fn is_placed_form(
    after: CppType,
    before: Seq<CppType>,
    md: Metadata,
    j: int,
    upto: nat,
) -> bool {
    match last_owner(before, before[j].self_tag@, upto) {
        Some(i) => placed_in(after, before[j], before[i], md),
        None => after == before[j],
    }
}

impl ContextCollection {
    fn copy_tags(tags: &Vec<TypeTag>) -> (r: Vec<TypeTag>)
        ensures
            r.len() == tags.len(),
            forall|k: int| 0 <= k < tags.len() ==> (#[trigger] r[k])@ == tags[k]@,
    {
        let mut out: Vec<TypeTag> = Vec::new();
        let mut k: usize = 0;
        while k < tags.len()
            invariant
                k <= tags.len(),
                out.len() == k,
                forall|j: int| 0 <= j < k ==> (#[trigger] out[j])@ == tags[j]@,
            decreases tags.len() - k,
        {
            out.push(tags[k].duplicate());
            k += 1;
        }
        out
    }

    fn scope_of_definition(&self, d: u32, fuel: usize) -> (r: Vec<String>)
        requires
            self.metadata().wf(),
            d < self.metadata().definitions().len(),
        ensures
            name_views(r@) == scope_names(self.metadata(), d as int, fuel as nat),
        decreases fuel,
    {
        proof {
            self.metadata.lemma_wf();
            assert(definition_ok(
                self.metadata.tables().type_definitions[d as int],
                self.metadata.tables(),
            ));
        }
        let def = self.metadata.type_definition(d);
        let mut out: Vec<String> = match def.declaring_type {
            Some(p) if fuel > 0 => self.scope_of_definition(p, fuel - 1),
            _ => Vec::new(),
        };
        let ghost before = name_views(out@);
        let name = self.config.name_cpp(def.name.clone());
        out.push(name);
        assert(name_views(out@) =~= before.push(name@));
        assert(Seq::<Seq<char>>::empty().push(name@) =~= seq![name@]);
        out
    }

    fn scope_of(&self, i: usize) -> (r: Vec<String>)
        requires
            self.metadata().wf(),
            i < self.nodes().len(),
        ensures
            name_views(r@) == owner_scope(self.metadata(), self.nodes()[i as int]),
    {
        let n = self.metadata.type_definition_count();
        match self.nodes[i].definition {
            Some(d) if (d as usize) < n => self.scope_of_definition(d, n),
            _ => {
                let mut out: Vec<String> = Vec::new();
                out.push(self.nodes[i].name.clone());
                assert(name_views(out@) =~= seq![self.nodes[i as int].name@]);
                out
            },
        }
    }

    /// Places the nested types of the node under `owner_tag`: each node that
    /// its nested-type table names gets the names of the owner and of all
    /// that encloses the owner as its enclosing names, and is marked as
    /// declared inside the owner. Returns whether the owner has a node.
    pub fn fill_nested_types(&mut self, owner_tag: &TypeTag) -> (r: bool)
        requires
            old(self).wf(),
        ensures
            final(self).wf(),
            final(self).metadata() == old(self).metadata(),
            nested_filled(old(self).nodes(), final(self).nodes(), old(self).metadata(), owner_tag@, r),
            tags_kept(old(self).nodes(), final(self).nodes()),
            final(self).nodes().len() == old(self).nodes().len(),
    {
        let ghost before = self.nodes@;
        let ghost md = self.metadata;
        let i = match self.find(owner_tag) {
            Some(i) => i,
            None => {
                return false;
            },
        };
        proof {
            let c = choose|c: int|
                0 <= c < before.len() && (#[trigger] before[c]).self_tag@ == owner_tag@;
            if c != i {
                if c < i {
                    assert(before[c].self_tag@ != before[i as int].self_tag@);
                } else {
                    assert(before[i as int].self_tag@ != before[c].self_tag@);
                }
            }
        }
        let ghost owner = before[i as int];
        let names = self.scope_of(i);
        let aliases = Self::copy_tags(&self.nodes[i].nested_types);
        let mut a: usize = 0;
        while a < aliases.len()
            invariant
                self.wf(),
                self.metadata() == md,
                before == old(self).nodes(),
                unique_tags(before),
                owner == before[i as int],
                i < before.len(),
                self.nodes().len() == before.len(),
                name_views(names@) == owner_scope(md, owner),
                aliases.len() == owner.nested_types.len(),
                forall|k: int| 0 <= k < aliases.len() ==> (#[trigger] aliases[k])@ == owner.nested_types[k]@,
                a <= aliases.len(),
                forall|j: int|
                    0 <= j < before.len() ==> (#[trigger] self.nodes()[j]).self_tag == before[j].self_tag,
                forall|j: int|
                    0 <= j < before.len() ==> if is_alias_upto(owner, before[j].self_tag@, a as int) {
                        placed_in(#[trigger] self.nodes()[j], before[j], owner, md)
                    } else {
                        self.nodes()[j] == before[j]
                    },
            decreases aliases.len() - a,
        {
            let ghost current = self.nodes@;
            match self.find(&aliases[a]) {
                Some(j) => {
                    self.nodes[j].enclosing = Self::copy_names(&names);
                    self.nodes[j].declared_in_parent = true;
                    proof {
                        let n = self.nodes@[j as int];
                        assert(self.nodes@ =~= current.update(j as int, n));
                        assert(node_ok(md, current, current[j as int]));
                        lemma_registry_update(md, current, j as int, n);
                        assert(owner.nested_types[a as int]@ == before[j as int].self_tag@);
                        assert forall|m: int| 0 <= m < before.len() implies if is_alias_upto(
                            owner,
                            before[m].self_tag@,
                            a + 1,
                        ) {
                            placed_in(#[trigger] self.nodes()[m], before[m], owner, md)
                        } else {
                            self.nodes()[m] == before[m]
                        } by {
                            if m != j {
                                if is_alias_upto(owner, before[m].self_tag@, a + 1) {
                                    let w = choose|w: int|
                                        0 <= w < a + 1 && (#[trigger] owner.nested_types[w])@
                                            == before[m].self_tag@;
                                    if w == a {
                                        if m < j {
                                            assert(before[m].self_tag@ != before[j as int].self_tag@);
                                        } else {
                                            assert(before[j as int].self_tag@ != before[m].self_tag@);
                                        }
                                    }
                                    assert(is_alias_upto(owner, before[m].self_tag@, a as int));
                                }
                            }
                        }
                    }
                },
                None => {
                    proof {
                        assert forall|m: int| 0 <= m < before.len() implies (is_alias_upto(
                            owner,
                            before[m].self_tag@,
                            a + 1,
                        ) == is_alias_upto(owner, before[m].self_tag@, a as int)) by {
                            if is_alias_upto(owner, before[m].self_tag@, a + 1) {
                                let w = choose|w: int|
                                    0 <= w < a + 1 && (#[trigger] owner.nested_types[w])@
                                        == before[m].self_tag@;
                                if w == a {
                                    assert(current[m].self_tag@ == aliases[a as int]@);
                                }
                            }
                        }
                    }
                },
            }
            a += 1;
        }
        true
    }

    /// The nested pass: places the nested types of every node, owner by
    /// owner in the order of the handles. Afterwards each node that some
    /// nested-type table names is placed in the last owner that names it;
    /// every other node is as it was.
    pub fn fill_all_nested_types(&mut self)
        requires
            old(self).wf(),
        ensures
            final(self).wf(),
            final(self).metadata() == old(self).metadata(),
            final(self).nodes().len() == old(self).nodes().len(),
            forall|j: int|
                0 <= j < old(self).nodes().len() ==> is_placed_form(
                    #[trigger] final(self).nodes()[j],
                    old(self).nodes(),
                    old(self).metadata(),
                    j,
                    old(self).nodes().len(),
                ),
    {
        let ghost before = self.nodes@;
        let ghost md = self.metadata;
        let n = self.nodes.len();
        let mut i: usize = 0;
        while i < n
            invariant
                self.wf(),
                self.metadata() == md,
                md == old(self).metadata(),
                before == old(self).nodes(),
                unique_tags(before),
                n == before.len(),
                self.nodes().len() == n,
                i <= n,
                forall|j: int|
                    0 <= j < n ==> (#[trigger] self.nodes()[j]).self_tag == before[j].self_tag
                        && self.nodes()[j].nested_types == before[j].nested_types
                        && self.nodes()[j].definition == before[j].definition && self.nodes()[j].name
                        == before[j].name,
                forall|j: int|
                    0 <= j < n ==> is_placed_form(#[trigger] self.nodes()[j], before, md, j, i as nat),
            decreases n - i,
        {
            let ghost current = self.nodes@;
            let tag = self.nodes[i].self_tag.duplicate();
            let found = self.fill_nested_types(&tag);
            proof {
                let next = self.nodes@;
                assert(has_tag(current, tag@)) by {
                    assert(current[i as int].self_tag@ == tag@);
                }
                let c = choose|c: int| 0 <= c < current.len() && (#[trigger] current[c]).self_tag@ == tag@;
                assert(c == i) by {
                    if c < i {
                        assert(before[c].self_tag@ != before[i as int].self_tag@);
                    } else if i < c {
                        assert(before[i as int].self_tag@ != before[c].self_tag@);
                    }
                }
                assert(owner_scope(md, current[i as int]) == owner_scope(md, before[i as int]));
                assert forall|j: int| 0 <= j < n implies is_placed_form(
                    #[trigger] next[j],
                    before,
                    md,
                    j,
                    (i + 1) as nat,
                ) by {
                    assert(is_placed_form(current[j], before, md, j, i as nat));
                    assert(is_alias(current[i as int], current[j].self_tag@) == is_alias(
                        before[i as int],
                        before[j].self_tag@,
                    ));
                    if is_alias(before[i as int], before[j].self_tag@) {
                        assert(placed_in(next[j], current[j], current[i as int], md));
                    } else {
                        assert(next[j] == current[j]);
                    }
                }
            }
            i += 1;
        }
    }
}

} // verus!
