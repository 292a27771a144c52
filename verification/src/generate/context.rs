//! Compilation units: the nodes that share one output file.
use crate::generate::context_collection::ContextCollection;
use crate::generate::cpp_type::name_views;
use crate::generate::emit::plan::{is_owned, is_plan, selected, EmissionPlan};
use crate::generate::emit::render::{unit_cpp_path, unit_lines, unit_path, write_unit};
use crate::generate::type_tag::TypeTag;
use vstd::prelude::*;

verus! {

/// One compilation unit: normally a top-level type with the types nested in
/// it and the generic instantiations made from it.
#[derive(Clone, Debug, PartialEq, Eq)]
pub struct CppContext {
    /// The tag that the unit is rooted at.
    pub root: TypeTag,
    /// The path of the header of the unit, below the header directory.
    pub typedef_path: String,
    /// The handles of the nodes that the unit owns, ascending.
    pub types: Vec<usize>,
}

impl CppContext {
    /// `self` is the unit rooted at `root` in the registry `cc`.
    pub open spec fn is_unit_of(&self, cc: ContextCollection, root: TypeTag) -> bool {
        &&& self.root@ == root@
        &&& self.typedef_path@ == unit_path(cc.metadata(), root@)
        &&& self.types@ == selected(|j: int| is_owned(cc.nodes(), root@, j), cc.nodes().len())
    }

    /// The unit rooted at `root`: its path and the nodes it owns. A root that
    /// no node belongs to gives a unit without types.
    pub fn get(cc: &ContextCollection, root: &TypeTag) -> (r: CppContext)
        ensures
            r.is_unit_of(*cc, *root),
    {
        let ghost nodes = cc.nodes();
        let ghost p = |j: int| is_owned(nodes, root@, j);
        let n = cc.len();
        let mut types: Vec<usize> = Vec::new();
        let mut j: usize = 0;
        while j < n
            invariant
                n == nodes.len(),
                nodes == cc.nodes(),
                p == (|j: int| is_owned(nodes, root@, j)),
                j <= n,
                types@ == selected(p, j as nat),
            decreases n - j,
        {
            if cc.get(j).context_root.same_as(root) {
                assert(p(j as int));
                types.push(j);
            } else {
                assert(!p(j as int));
            }
            j += 1;
        }
        CppContext { root: root.duplicate(), typedef_path: unit_cpp_path(cc, root), types }
    }

    /// The text of the unit, line by line.
    pub fn write(&self, cc: &ContextCollection) -> (lines: Vec<String>)
        requires
            cc.wf(),
        ensures
            exists|plan: EmissionPlan|
                #[trigger] is_plan(plan, cc.nodes(), self.root@) && name_views(lines@) == unit_lines(
                    plan,
                    cc.metadata(),
                    cc.nodes(),
                ),
    {
        write_unit(cc, &self.root)
    }
}

} // verus!
