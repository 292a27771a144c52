//! The registry of the type graph: every node under its tag, created once as
//! a skeleton and filled later.
use crate::generate::config::{spec_name_cpp, spec_namespace_cpp, GenerationConfig};
use crate::generate::cpp_type::{
    body_empty, body_within, has_tag, lemma_body_within_kept, option_tag_view, tag_views,
    tags_kept, unique_tags, CppType,
};
use crate::generate::metadata::{all_below, Metadata};
use crate::generate::type_tag::{SpecialKind, TagView, TypeTag};
use vstd::prelude::*;

pub mod comments;
pub mod fill;
pub mod generic;
pub mod handlers;
pub mod nested;

verus! {

/// Every index that the tag holds lies inside the tables.
pub open spec fn tag_in_range(md: Metadata, t: TagView) -> bool {
    match t {
        TagView::DefinitionRef(d) => d < md.definitions().len(),
        TagView::GenericInstantiation { definition_index, type_arguments } => {
            &&& definition_index < md.definitions().len()
            &&& all_below(type_arguments, md.tables().types.len() as int)
        },
        TagView::Grouped(_) => true,
    }
}

/// The tag is made from a blacklisted definition, and so yields no node.
pub open spec fn is_excluded(md: Metadata, t: TagView) -> bool {
    t.definition() matches Some(d) && md.is_blacklisted_spec(d as int)
}

/// The name under which the hand-authored type of a runtime-special kind is
/// declared.
pub open spec fn special_name(kind: SpecialKind) -> Seq<char> {
    match kind {
        SpecialKind::ObjectRoot => "ObjectWrapper"@,
        SpecialKind::ValueTypeRoot => "ValueTypeWrapper"@,
        SpecialKind::DelegateRoot => "DelegateWrapper"@,
        SpecialKind::EnumRoot => "EnumWrapper"@,
        SpecialKind::ArrayRoot => "ArrayWrapper"@,
    }
}

/// The tags of the definitions nested directly in `d`.
pub open spec fn nested_tags(md: Metadata, d: int) -> Seq<TagView> {
    md.children_of(d).map_values(|c: u32| TagView::DefinitionRef(c))
}

/// `n` is the skeleton that `tag` stands for: identity, name components and
/// classification, with no body.
pub open spec fn is_skeleton_of(n: CppType, md: Metadata, tag: TagView) -> bool {
    &&& n.self_tag@ == tag
    &&& n.definition == tag.definition()
    &&& !n.filled
    &&& body_empty(n)
    &&& n.handler is None
    &&& n.enclosing.len() == 0
    &&& !n.declared_in_parent
    &&& match tag {
        TagView::Grouped(kind) => {
            &&& n.context_root@ == tag
            &&& n.parent is None
            &&& n.namespace@ == Seq::<char>::empty()
            &&& n.name@ == special_name(kind)
            &&& n.template_parameters.len() == 0
            &&& n.generic_arguments is None
            &&& !n.is_value_type && !n.is_enum_type && !n.is_interface
            &&& n.nested_types.len() == 0
        },
        TagView::DefinitionRef(d) => {
            &&& common_skeleton(n, md, d as int)
            &&& n.template_parameters@ == md.definitions()[d as int].generic_parameters@
            &&& n.generic_arguments is None
            &&& tag_views(n.nested_types@) == nested_tags(md, d as int)
        },
        TagView::GenericInstantiation { definition_index, type_arguments } => {
            &&& common_skeleton(n, md, definition_index as int)
            &&& n.template_parameters.len() == 0
            &&& n.generic_arguments matches Some(a) && a@ == type_arguments
            &&& n.nested_types.len() == 0
        },
    }
}

/// What the skeleton of a definition and those of its instantiations share.
pub open spec fn common_skeleton(n: CppType, md: Metadata, d: int) -> bool {
    let def = md.definitions()[d];
    &&& n.context_root@ == TagView::DefinitionRef(md.root_of(d) as u32)
    &&& option_tag_view(n.parent) == (match def.declaring_type {
        Some(p) => Some(TagView::DefinitionRef(p)),
        None => None,
    })
    &&& n.namespace@ == spec_namespace_cpp(def.namespace@)
    &&& n.name@ == spec_name_cpp(def.name@)
    &&& n.is_value_type == def.is_value_type
    &&& n.is_enum_type == def.is_enum
    &&& n.is_interface == def.is_interface
}

/// What holds of every node of a registry: its tag lies inside the tables,
/// it is made from no blacklisted definition, and every reference in its
/// body points at a node of the registry or is a placeholder.
pub open spec fn node_ok(md: Metadata, nodes: Seq<CppType>, n: CppType) -> bool {
    &&& tag_in_range(md, n.self_tag@)
    &&& n.definition == n.self_tag@.definition()
    &&& !is_excluded(md, n.self_tag@)
    &&& body_within(n, nodes)
}

/// One node per tag, and every node sound.
pub open spec fn registry_ok(md: Metadata, nodes: Seq<CppType>) -> bool {
    &&& unique_tags(nodes)
    &&& forall|i: int| 0 <= i < nodes.len() ==> node_ok(md, nodes, #[trigger] nodes[i])
}

/// The outcome of asking for the node of one tag: the node that was there,
/// no node for a blacklisted definition, or else one new skeleton at the end.
pub open spec fn ensured(
    before: Seq<CppType>,
    after: Seq<CppType>,
    md: Metadata,
    tag: TagView,
    r: Option<usize>,
) -> bool {
    if has_tag(before, tag) {
        &&& after == before
        &&& r matches Some(i) && i < before.len() && before[i as int].self_tag@ == tag
    } else if is_excluded(md, tag) {
        &&& after == before
        &&& r is None
    } else {
        &&& after.len() == before.len() + 1
        &&& after.drop_last() == before
        &&& is_skeleton_of(after.last(), md, tag)
        &&& r matches Some(i) && i == before.len()
    }
}

/// Whether definition `c` gets a new node when the types enclosed by `d` are
/// created.
pub open spec fn is_missing(before: Seq<CppType>, md: Metadata, d: int, c: int) -> bool {
    &&& md.encloses_spec(d, c)
    &&& !md.is_blacklisted_spec(c)
    &&& !has_tag(before, TagView::DefinitionRef(c as u32))
}

/// The definitions among the first `upto` that get a new node when the types
/// enclosed by `d` are created, ascending.
pub open spec fn missing_upto(before: Seq<CppType>, md: Metadata, d: int, upto: nat) -> Seq<u32>
    decreases upto,
{
    if upto == 0 {
        Seq::empty()
    } else {
        let rest = missing_upto(before, md, d, (upto - 1) as nat);
        if is_missing(before, md, d, upto - 1) {
            rest.push((upto - 1) as u32)
        } else {
            rest
        }
    }
}

/// The nodes of `before` followed by one skeleton for each definition in
/// `added`, in order.
pub open spec fn extended_by(
    before: Seq<CppType>,
    after: Seq<CppType>,
    md: Metadata,
    added: Seq<u32>,
) -> bool {
    &&& after.len() == before.len() + added.len()
    &&& after.subrange(0, before.len() as int) == before
    &&& forall|k: int|
        0 <= k < added.len() ==> is_skeleton_of(
            #[trigger] after[before.len() + k],
            md,
            TagView::DefinitionRef(added[k]),
        )
}

/// The handle of `tag` in `nodes`: the position of its node, if it has one.
pub open spec fn is_handle(nodes: Seq<CppType>, tag: TagView, r: Option<usize>) -> bool {
    match r {
        Some(i) => i < nodes.len() && nodes[i as int].self_tag@ == tag,
        None => !has_tag(nodes, tag),
    }
}

/// The outcome of creating `tag` with everything it encloses. For a type
/// definition that is one skeleton for the definition and for each definition
/// nested in it at any depth, as far as they are not blacklisted and have no
/// node yet; for any other tag it is the outcome of asking for that one node.
pub open spec fn made_from(
    before: Seq<CppType>,
    after: Seq<CppType>,
    md: Metadata,
    tag: TagView,
    r: Option<usize>,
) -> bool {
    match tag {
        TagView::DefinitionRef(d) => {
            &&& extended_by(
                before,
                after,
                md,
                missing_upto(before, md, d as int, md.definitions().len()),
            )
            &&& is_handle(after, tag, r)
        },
        _ => ensured(before, after, md, tag, r),
    }
}

pub proof fn lemma_missing_upto(before: Seq<CppType>, md: Metadata, d: int, upto: nat)
    requires
        upto <= u32::MAX,
    ensures
        forall|k: int|
            0 <= k < missing_upto(before, md, d, upto).len() ==> {
                &&& 0 <= (#[trigger] missing_upto(before, md, d, upto)[k]) < upto
                &&& is_missing(before, md, d, missing_upto(before, md, d, upto)[k] as int)
            },
        forall|j: int, k: int|
            0 <= j < k < missing_upto(before, md, d, upto).len() ==> missing_upto(
                before,
                md,
                d,
                upto,
            )[j] < missing_upto(before, md, d, upto)[k],
        forall|c: int|
            0 <= c < upto && is_missing(before, md, d, c) ==> missing_upto(
                before,
                md,
                d,
                upto,
            ).contains(c as u32),
    decreases upto,
{
    if upto > 0 {
        let rest = missing_upto(before, md, d, (upto - 1) as nat);
        let all = missing_upto(before, md, d, upto);
        lemma_missing_upto(before, md, d, (upto - 1) as nat);
        assert forall|c: int|
            0 <= c < upto && is_missing(before, md, d, c) implies all.contains(
            c as u32,
        ) by {
            if c == upto - 1 {
                assert(all[all.len() - 1] == c as u32);
            } else {
                assert(rest.contains(c as u32));
                let k = choose|k: int| 0 <= k < rest.len() && rest[k] == c as u32;
                assert(all[k] == c as u32);
            }
        }
    }
}

/// The registry of one generation run. It owns the metadata it was made for,
/// so the blacklist is fixed while nodes are created.
pub struct ContextCollection {
    metadata: Metadata,
    config: GenerationConfig,
    nodes: Vec<CppType>,
}

impl ContextCollection {
    pub closed spec fn metadata(&self) -> Metadata {
        self.metadata
    }

    pub closed spec fn config(&self) -> GenerationConfig {
        self.config
    }

    /// The nodes, in the order in which they were created.
    pub closed spec fn nodes(&self) -> Seq<CppType> {
        self.nodes@
    }

    pub open spec fn wf(&self) -> bool {
        &&& self.metadata().wf()
        &&& registry_ok(self.metadata(), self.nodes())
    }

    /// An empty registry for the given metadata.
    pub fn new(metadata: Metadata, config: GenerationConfig) -> (r: ContextCollection)
        requires
            metadata.wf(),
        ensures
            r.wf(),
            r.metadata() == metadata,
            r.config() == config,
            r.nodes().len() == 0,
    {
        ContextCollection { metadata, config, nodes: Vec::new() }
    }

    /// The metadata that the registry was made for.
    pub fn get_metadata(&self) -> (r: &Metadata)
        ensures
            *r == self.metadata(),
    {
        &self.metadata
    }

    /// The naming configuration of the run.
    pub fn get_config(&self) -> (r: &GenerationConfig)
        ensures
            *r == self.config(),
    {
        &self.config
    }

    /// How many nodes the registry holds.
    pub fn len(&self) -> (r: usize)
        ensures
            r == self.nodes().len(),
    {
        self.nodes.len()
    }

    /// The node behind a handle.
    pub fn get(&self, handle: usize) -> (r: &CppType)
        requires
            handle < self.nodes().len(),
        ensures
            *r == self.nodes()[handle as int],
    {
        &self.nodes[handle]
    }

    /// Whether every index that `tag` holds lies inside the tables.
    pub fn tag_is_valid(&self, tag: &TypeTag) -> (r: bool)
        ensures
            r == tag_in_range(self.metadata(), tag@),
    {
        let n = self.metadata.type_definition_count();
        match tag {
            TypeTag::DefinitionRef(d) => (*d as usize) < n,
            TypeTag::GenericInstantiation { definition_index, type_arguments } => {
                let bound = self.metadata.get_tables().types.len();
                let mut k: usize = 0;
                let mut ok = true;
                while k < type_arguments.len()
                    invariant
                        k <= type_arguments.len(),
                        bound == self.metadata().tables().types.len(),
                        ok == (forall|j: int| 0 <= j < k ==> #[trigger] type_arguments[j] < bound),
                    decreases type_arguments.len() - k,
                {
                    if type_arguments[k] as usize >= bound {
                        ok = false;
                    }
                    k += 1;
                }
                (*definition_index as usize) < n && ok
            },
            TypeTag::Grouped(_) => true,
        }
    }

    /// The handle of the node registered under `tag`, if there is one.
    pub fn find(&self, tag: &TypeTag) -> (r: Option<usize>)
        ensures
            is_handle(self.nodes(), tag@, r),
    {
        let mut i: usize = 0;
        while i < self.nodes.len()
            invariant
                i <= self.nodes.len(),
                forall|j: int| 0 <= j < i ==> (#[trigger] self.nodes[j]).self_tag@ != tag@,
            decreases self.nodes.len() - i,
        {
            if self.nodes[i].self_tag.same_as(tag) {
                return Some(i);
            }
            i += 1;
        }
        None
    }

    /// The node registered under `tag`, if there is one.
    pub fn get_cpp_type(&self, tag: &TypeTag) -> (r: Option<&CppType>)
        ensures
            match r {
                Some(n) => has_tag(self.nodes(), tag@) && n.self_tag@ == tag@ && exists|i: int|
                    0 <= i < self.nodes().len() && #[trigger] self.nodes()[i] == *n,
                None => !has_tag(self.nodes(), tag@),
            },
    {
        match self.find(tag) {
            Some(i) => Some(&self.nodes[i]),
            None => None,
        }
    }

    fn special_name_of(kind: SpecialKind) -> (r: String)
        ensures
            r@ == special_name(kind),
    {
        match kind {
            SpecialKind::ObjectRoot => String::from_str("ObjectWrapper"),
            SpecialKind::ValueTypeRoot => String::from_str("ValueTypeWrapper"),
            SpecialKind::DelegateRoot => String::from_str("DelegateWrapper"),
            SpecialKind::EnumRoot => String::from_str("EnumWrapper"),
            SpecialKind::ArrayRoot => String::from_str("ArrayWrapper"),
        }
    }

    fn copy_names(names: &Vec<String>) -> (r: Vec<String>)
        ensures
            r@ == names@,
    {
        let mut out: Vec<String> = Vec::new();
        let mut k: usize = 0;
        while k < names.len()
            invariant
                k <= names.len(),
                out.len() == k,
                forall|j: int| 0 <= j < k ==> #[trigger] out[j] == names[j],
            decreases names.len() - k,
        {
            out.push(names[k].clone());
            k += 1;
        }
        assert(out@ =~= names@);
        out
    }

    fn tags_of_children(children: &Vec<u32>) -> (r: Vec<TypeTag>)
        ensures
            tag_views(r@) == children@.map_values(|c: u32| TagView::DefinitionRef(c)),
    {
        let mut out: Vec<TypeTag> = Vec::new();
        let mut k: usize = 0;
        while k < children.len()
            invariant
                k <= children.len(),
                out.len() == k,
                forall|j: int| 0 <= j < k ==> (#[trigger] out[j])@ == TagView::DefinitionRef(children[j]),
            decreases children.len() - k,
        {
            out.push(TypeTag::DefinitionRef(children[k]));
            k += 1;
        }
        assert(tag_views(out@) =~= children@.map_values(|c: u32| TagView::DefinitionRef(c)));
        out
    }

    /// The skeleton that `tag` stands for.
    fn make_skeleton(&self, tag: &TypeTag) -> (n: CppType)
        requires
            self.metadata().wf(),
            tag_in_range(self.metadata(), tag@),
        ensures
            is_skeleton_of(n, self.metadata(), tag@),
    {
        let mut n = CppType {
            self_tag: tag.duplicate(),
            context_root: tag.duplicate(),
            parent: None,
            definition: tag.definition_index(),
            namespace: String::new(),
            enclosing: Vec::new(),
            declared_in_parent: false,
            name: String::new(),
            template_parameters: Vec::new(),
            generic_arguments: None,
            is_value_type: false,
            is_enum_type: false,
            is_interface: false,
            nested_types: Vec::new(),
            filled: false,
            base: None,
            interfaces: Vec::new(),
            fields: Vec::new(),
            methods: Vec::new(),
            properties: Vec::new(),
            method_specializations: Vec::new(),
            size: 0,
            alignment: 0,
            handler: None,
        };
        match tag {
            TypeTag::Grouped(kind) => {
                n.name = Self::special_name_of(*kind);
            },
            TypeTag::DefinitionRef(d) => {
                self.name_skeleton(&mut n, *d);
                let def = self.metadata.type_definition(*d);
                n.template_parameters = Self::copy_names(&def.generic_parameters);
                n.nested_types = Self::tags_of_children(self.metadata.nested_types(*d));
            },
            TypeTag::GenericInstantiation { definition_index, type_arguments } => {
                self.name_skeleton(&mut n, *definition_index);
                n.generic_arguments = Some(type_arguments.clone());
            },
        }
        n
    }

    /// Gives `n` the context, names and classification of definition `d`.
    fn name_skeleton(&self, n: &mut CppType, d: u32)
        requires
            self.metadata().wf(),
            d < self.metadata().definitions().len(),
        ensures
            common_skeleton(*final(n), self.metadata(), d as int),
            *final(n) == (CppType {
                context_root: final(n).context_root,
                parent: final(n).parent,
                namespace: final(n).namespace,
                name: final(n).name,
                is_value_type: final(n).is_value_type,
                is_enum_type: final(n).is_enum_type,
                is_interface: final(n).is_interface,
                ..*old(n)
            }),
    {
        let def = self.metadata.type_definition(d);
        n.context_root = TypeTag::DefinitionRef(self.metadata.root(d));
        n.parent = match def.declaring_type {
            Some(p) => Some(TypeTag::DefinitionRef(p)),
            None => None,
        };
        n.namespace = self.config.namespace_cpp(def.namespace.clone());
        n.name = self.config.name_cpp(def.name.clone());
        n.is_value_type = def.is_value_type;
        n.is_enum_type = def.is_enum;
        n.is_interface = def.is_interface;
    }

    /// Appends a skeleton for `tag`, which has no node yet.
    fn push_skeleton(&mut self, tag: &TypeTag) -> (r: usize)
        requires
            old(self).wf(),
            tag_in_range(old(self).metadata(), tag@),
            !has_tag(old(self).nodes(), tag@),
            !is_excluded(old(self).metadata(), tag@),
        ensures
            final(self).wf(),
            final(self).metadata() == old(self).metadata(),
            final(self).nodes().len() == old(self).nodes().len() + 1,
            final(self).nodes().drop_last() == old(self).nodes(),
            is_skeleton_of(final(self).nodes().last(), old(self).metadata(), tag@),
            r == old(self).nodes().len(),
    {
        let n = self.make_skeleton(tag);
        let ghost before = self.nodes@;
        let r = self.nodes.len();
        self.nodes.push(n);
        proof {
            let after = self.nodes@;
            assert(after.drop_last() =~= before);
            assert(tags_kept(before, after));
            assert forall|i: int| 0 <= i < after.len() implies node_ok(
                self.metadata,
                after,
                #[trigger] after[i],
            ) by {
                if i < before.len() {
                    assert(after[i] == before[i]);
                    assert(node_ok(self.metadata, before, before[i]));
                    lemma_body_within_kept(before[i], before, after);
                }
            }
            assert forall|i: int, j: int| 0 <= i < j < after.len() implies (#[trigger] after[i]).self_tag@
                != (#[trigger] after[j]).self_tag@ by {
                if j == before.len() {
                    assert(before[i].self_tag@ != tag@);
                } else {
                    assert(before[i].self_tag@ != before[j].self_tag@);
                }
            }
        }
        r
    }

    /// The node of `tag`, created as a skeleton where the registry has none.
    /// Yields no node for a tag made from a blacklisted definition.
    fn ensure_node(&mut self, tag: &TypeTag) -> (r: Option<usize>)
        requires
            old(self).wf(),
            tag_in_range(old(self).metadata(), tag@),
        ensures
            final(self).wf(),
            final(self).metadata() == old(self).metadata(),
            ensured(old(self).nodes(), final(self).nodes(), old(self).metadata(), tag@, r),
    {
        match self.find(tag) {
            Some(i) => Some(i),
            None => {
                let excluded = match tag.definition_index() {
                    Some(d) => self.metadata.is_blacklisted(d),
                    None => false,
                };
                if excluded {
                    None
                } else {
                    Some(self.push_skeleton(tag))
                }
            },
        }
    }

    /// Creates the node of a nested type on its own, whether or not its
    /// declaring type has been created. Returns the handle of the node; `None`
    /// for a blacklisted definition.
    pub fn make_nested_from(&mut self, tdi: u32) -> (r: Option<usize>)
        requires
            old(self).wf(),
            tdi < old(self).metadata().definitions().len(),
        ensures
            final(self).wf(),
            final(self).metadata() == old(self).metadata(),
            ensured(
                old(self).nodes(),
                final(self).nodes(),
                old(self).metadata(),
                TagView::DefinitionRef(tdi),
                r,
            ),
    {
        let tag = TypeTag::DefinitionRef(tdi);
        self.ensure_node(&tag)
    }

    /// Creates the node of `tag` and, for a type definition, of every type
    /// nested in it. Nodes that exist are left as they are, so a second
    /// request changes nothing. Returns the handle of the node of `tag`;
    /// `None` where `tag` is made from a blacklisted definition.
    pub fn make_from(&mut self, tag: &TypeTag) -> (r: Option<usize>)
        requires
            old(self).wf(),
            tag_in_range(old(self).metadata(), tag@),
        ensures
            final(self).wf(),
            final(self).metadata() == old(self).metadata(),
            made_from(old(self).nodes(), final(self).nodes(), old(self).metadata(), tag@, r),
    {
        match tag {
            TypeTag::DefinitionRef(d) => {
                let ghost before = self.nodes@;
                let ghost md = self.metadata;
                let n = self.metadata.type_definition_count();
                proof {
                    self.metadata.lemma_wf();
                    assert(before.subrange(0, before.len() as int) =~= before);
                }
                let mut c: usize = 0;
                while c < n
                    invariant
                        self.wf(),
                        self.metadata() == md,
                        before == old(self).nodes(),
                        md == old(self).metadata(),
                        n == md.definitions().len(),
                        n <= u32::MAX,
                        c <= n,
                        extended_by(before, self.nodes(), md, missing_upto(before, md, *d as int, c as nat)),
                    decreases n - c,
                {
                    let ghost current = self.nodes@;
                    let ghost added = missing_upto(before, md, *d as int, c as nat);
                    let candidate = TypeTag::DefinitionRef(c as u32);
                    proof {
                        lemma_missing_upto(before, md, *d as int, c as nat);
                        // A node for `c` can only have been there from the start.
                        if has_tag(current, candidate@) {
                            let i = choose|i: int|
                                0 <= i < current.len() && (#[trigger] current[i]).self_tag@
                                    == candidate@;
                            if i >= before.len() {
                                let k = i - before.len();
                                assert(is_skeleton_of(
                                    current[before.len() + k],
                                    md,
                                    TagView::DefinitionRef(added[k]),
                                ));
                                assert(added[k] < c);
                            } else {
                                assert(current.subrange(0, before.len() as int)[i] == current[i]);
                            }
                        }
                        if has_tag(before, candidate@) {
                            let i = choose|i: int|
                                0 <= i < before.len() && (#[trigger] before[i]).self_tag@
                                    == candidate@;
                            assert(current.subrange(0, before.len() as int)[i] == current[i]);
                        }
                        assert(has_tag(current, candidate@) == has_tag(before, candidate@));
                    }
                    if self.metadata.encloses(*d, c as u32) && !self.metadata.is_blacklisted(c as u32) {
                        match self.find(&candidate) {
                            Some(_) => {},
                            None => {
                                self.push_skeleton(&candidate);
                                proof {
                                    let after = self.nodes@;
                                    let grown = missing_upto(before, md, *d as int, (c + 1) as nat);
                                    assert(grown == added.push(c as u32));
                                    assert(after.drop_last() == current);
                                    assert(after.subrange(0, before.len() as int) =~= before) by {
                                        assert forall|i: int| 0 <= i < before.len() implies after[i]
                                            == before[i] by {
                                            assert(after.drop_last()[i] == current[i]);
                                            assert(current.subrange(0, before.len() as int)[i]
                                                == current[i]);
                                        }
                                    }
                                    assert forall|k: int| 0 <= k < grown.len() implies is_skeleton_of(
                                        #[trigger] after[before.len() + k],
                                        md,
                                        TagView::DefinitionRef(grown[k]),
                                    ) by {
                                        if k < added.len() {
                                            assert(after.drop_last()[before.len() + k]
                                                == current[before.len() + k]);
                                        }
                                    }
                                }
                            },
                        }
                    }
                    c += 1;
                }
                self.find(tag)
            },
            _ => self.ensure_node(tag),
        }
    }
}

} // verus!
