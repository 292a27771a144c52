//! The layout calculator: byte offsets, size and alignment of an instance,
//! laid out as the native runtime lays it out.
use vstd::prelude::*;

verus! {

/// How much room a field needs inside an instance.
#[derive(Clone, Copy, Debug, PartialEq, Eq, Structural)]
pub struct FieldShape {
    /// Size in bytes.
    pub size: u32,
    /// Alignment in bytes, packing of the field's own type taken into account.
    pub alignment: u8,
    /// Alignment in bytes that the field's type would have without packing;
    /// 0 where it is not known.
    pub natural_alignment: u8,
}

/// Where the fields of a type lie, and what the type as a whole takes.
#[derive(Clone, Debug, PartialEq, Eq)]
pub struct FieldLayout {
    /// One byte offset per field, in field order.
    pub offsets: Vec<u32>,
    /// Instance size, rounded up to the minimum alignment.
    pub class_size: u32,
    /// Instance size up to the end of the last field.
    pub actual_size: u32,
    pub minimum_alignment: u8,
    pub natural_alignment: u8,
}

#[derive(Clone, Copy, Debug, PartialEq, Eq, Structural)]
pub enum LayoutError {
    /// The instance does not fit in 32 bits of size.
    SizeOverflow,
    /// Base types or embedded value types form a chain that does not end.
    TooDeep,
}

/// The running totals of a layout after some of the fields.
pub struct LayoutState {
    pub actual_size: int,
    pub minimum_alignment: int,
    pub natural_alignment: int,
}

pub open spec fn max_int(a: int, b: int) -> int {
    if a >= b {
        a
    } else {
        b
    }
}

/// `x` rounded up to a multiple of `a`; an alignment below 2 asks for nothing.
pub open spec fn align_to(x: int, a: int) -> int {
    if a <= 1 {
        x
    } else {
        ((x + a - 1) / a) * a
    }
}

/// The alignment at which a field is placed. A packing other than 0 caps the
/// field's alignment; without packing a field aligned below 4 goes by its
/// natural alignment where that is known.
pub open spec fn placed_alignment(s: FieldShape, packing: u8) -> int {
    if packing != 0 {
        if s.alignment <= packing {
            s.alignment as int
        } else {
            packing as int
        }
    } else if s.alignment < 4 && s.natural_alignment != 0 {
        s.natural_alignment as int
    } else {
        s.alignment as int
    }
}

/// The offset that the next field `s` gets.
pub open spec fn next_offset(state: LayoutState, s: FieldShape, packing: u8) -> int {
    align_to(state.actual_size, placed_alignment(s, packing))
}

/// The totals after placing `s`. A field takes at least one byte.
pub open spec fn place(state: LayoutState, s: FieldShape, packing: u8) -> LayoutState {
    LayoutState {
        actual_size: next_offset(state, s, packing) + max_int(s.size as int, 1),
        minimum_alignment: max_int(state.minimum_alignment, placed_alignment(s, packing)),
        natural_alignment: max_int(
            max_int(state.natural_alignment, s.alignment as int),
            s.natural_alignment as int,
        ),
    }
}

/// The totals before any field: what the base type takes.
pub open spec fn initial_state(actual_parent_size: u32, parent_alignment: u8) -> LayoutState {
    LayoutState {
        actual_size: actual_parent_size as int,
        minimum_alignment: parent_alignment as int,
        natural_alignment: 0,
    }
}

/// The totals after the first `k` fields.
pub open spec fn state_after(
    fields: Seq<FieldShape>,
    actual_parent_size: u32,
    parent_alignment: u8,
    packing: u8,
    k: nat,
) -> LayoutState
    decreases k,
{
    if k == 0 {
        initial_state(actual_parent_size, parent_alignment)
    } else {
        place(
            state_after(fields, actual_parent_size, parent_alignment, packing, (k - 1) as nat),
            fields[k - 1],
            packing,
        )
    }
}

/// The offset of field `k`.
pub open spec fn offset_of(
    fields: Seq<FieldShape>,
    actual_parent_size: u32,
    parent_alignment: u8,
    packing: u8,
    k: int,
) -> int {
    next_offset(
        state_after(fields, actual_parent_size, parent_alignment, packing, k as nat),
        fields[k],
        packing,
    )
}

/// The instance size up to the end of the last field.
pub open spec fn actual_size_of(
    fields: Seq<FieldShape>,
    actual_parent_size: u32,
    parent_alignment: u8,
    packing: u8,
) -> int {
    state_after(fields, actual_parent_size, parent_alignment, packing, fields.len()).actual_size
}

/// The instance size, rounded up to the minimum alignment.
pub open spec fn class_size_of(
    fields: Seq<FieldShape>,
    actual_parent_size: u32,
    parent_alignment: u8,
    packing: u8,
) -> int {
    let end = state_after(fields, actual_parent_size, parent_alignment, packing, fields.len());
    align_to(end.actual_size, end.minimum_alignment)
}

/// `layout` is the layout of `fields` behind a base of the given size.
pub open spec fn is_layout_of(
    layout: FieldLayout,
    fields: Seq<FieldShape>,
    actual_parent_size: u32,
    parent_alignment: u8,
    packing: u8,
) -> bool {
    let end = state_after(fields, actual_parent_size, parent_alignment, packing, fields.len());
    &&& layout.offsets.len() == fields.len()
    &&& forall|k: int|
        0 <= k < fields.len() ==> #[trigger] layout.offsets[k] == offset_of(
            fields,
            actual_parent_size,
            parent_alignment,
            packing,
            k,
        )
    &&& layout.actual_size == end.actual_size
    &&& layout.class_size == align_to(end.actual_size, end.minimum_alignment)
    &&& layout.minimum_alignment == end.minimum_alignment
    &&& layout.natural_alignment == end.natural_alignment
}

/// Rounding up moves a size forward by less than the alignment, onto a
/// multiple of it.
pub proof fn lemma_align_to(x: int, a: int)
    requires
        0 <= x,
        0 <= a,
    ensures
        x <= align_to(x, a),
        align_to(x, a) < x + max_int(a, 1),
        a >= 1 ==> align_to(x, a) % a == 0,
{
    if a > 1 {
        let q = (x + a - 1) / a;
        assert(q * a <= x + a - 1 && x + a - 1 < q * a + a) by (nonlinear_arith)
            requires
                q == (x + a - 1) / a,
                a > 1,
        ;
        assert((q * a) % a == 0) by (nonlinear_arith)
            requires
                a > 1,
        ;
    } else if a == 1 {
        assert(x % 1 == 0);
    }
}

/// The totals never shrink and stay within the bounds of their types.
pub proof fn lemma_state_bounds(
    fields: Seq<FieldShape>,
    actual_parent_size: u32,
    parent_alignment: u8,
    packing: u8,
    j: nat,
    k: nat,
)
    requires
        j <= k <= fields.len(),
    ensures
        0 <= state_after(fields, actual_parent_size, parent_alignment, packing, j).actual_size
            <= state_after(fields, actual_parent_size, parent_alignment, packing, k).actual_size,
        0 <= state_after(fields, actual_parent_size, parent_alignment, packing, k).minimum_alignment
            <= 255,
        0 <= state_after(fields, actual_parent_size, parent_alignment, packing, k).natural_alignment
            <= 255,
    decreases k,
{
    if k > 0 {
        let before = state_after(
            fields,
            actual_parent_size,
            parent_alignment,
            packing,
            (k - 1) as nat,
        );
        if j < k {
            lemma_state_bounds(
                fields,
                actual_parent_size,
                parent_alignment,
                packing,
                j,
                (k - 1) as nat,
            );
        } else {
            lemma_state_bounds(
                fields,
                actual_parent_size,
                parent_alignment,
                packing,
                (k - 1) as nat,
                (k - 1) as nat,
            );
        }
        lemma_align_to(before.actual_size, placed_alignment(fields[k - 1], packing));
    }
}

/// What a layout guarantees: inherited data precedes declared fields, the
/// declared fields follow one another without overlap, each on a multiple of
/// the alignment it is placed at, and the rounded size covers them all.
pub proof fn lemma_layout_sound(
    fields: Seq<FieldShape>,
    actual_parent_size: u32,
    parent_alignment: u8,
    packing: u8,
    k: int,
)
    requires
        0 <= k < fields.len(),
    ensures
        actual_parent_size <= offset_of(fields, actual_parent_size, parent_alignment, packing, k),
        placed_alignment(fields[k], packing) >= 1 ==> offset_of(
            fields,
            actual_parent_size,
            parent_alignment,
            packing,
            k,
        ) % placed_alignment(fields[k], packing) == 0,
        offset_of(fields, actual_parent_size, parent_alignment, packing, k) + max_int(
            fields[k].size as int,
            1,
        ) <= actual_size_of(fields, actual_parent_size, parent_alignment, packing),
        k + 1 < fields.len() ==> offset_of(fields, actual_parent_size, parent_alignment, packing, k)
            + max_int(fields[k].size as int, 1) <= offset_of(
            fields,
            actual_parent_size,
            parent_alignment,
            packing,
            k + 1,
        ),
        actual_size_of(fields, actual_parent_size, parent_alignment, packing) <= class_size_of(
            fields,
            actual_parent_size,
            parent_alignment,
            packing,
        ),
{
    let n = fields.len();
    let before = state_after(fields, actual_parent_size, parent_alignment, packing, k as nat);
    let after = state_after(fields, actual_parent_size, parent_alignment, packing, (k + 1) as nat);
    let end = state_after(fields, actual_parent_size, parent_alignment, packing, n);
    lemma_state_bounds(fields, actual_parent_size, parent_alignment, packing, 0, k as nat);
    lemma_state_bounds(fields, actual_parent_size, parent_alignment, packing, (k + 1) as nat, n);
    lemma_align_to(before.actual_size, placed_alignment(fields[k], packing));
    assert(after == place(before, fields[k], packing));
    if k + 1 < n {
        lemma_align_to(after.actual_size, placed_alignment(fields[k + 1], packing));
    }
    lemma_align_to(end.actual_size, end.minimum_alignment);
}

/// Equal inputs have equal layouts: nothing but the fields, the base and the
/// packing enters the computation.
pub proof fn lemma_layout_deterministic(
    a: FieldLayout,
    b: FieldLayout,
    fields: Seq<FieldShape>,
    actual_parent_size: u32,
    parent_alignment: u8,
    packing: u8,
)
    requires
        is_layout_of(a, fields, actual_parent_size, parent_alignment, packing),
        is_layout_of(b, fields, actual_parent_size, parent_alignment, packing),
    ensures
        a.offsets@ == b.offsets@,
        a.class_size == b.class_size,
        a.actual_size == b.actual_size,
        a.minimum_alignment == b.minimum_alignment,
        a.natural_alignment == b.natural_alignment,
{
    assert(a.offsets@ =~= b.offsets@);
}

fn align_up(x: u64, a: u8) -> (r: u64)
    requires
        x <= u32::MAX,
    ensures
        r == align_to(x as int, a as int),
        r <= x + 255,
{
    if a <= 1 {
        x
    } else {
        let wide: u64 = a as u64;
        proof {
            lemma_align_to(x as int, a as int);
        }
        let q: u64 = (x + wide - 1) / wide;
        assert(q * wide <= x + wide - 1) by (nonlinear_arith)
            requires
                q as int == (x as int + wide as int - 1) / (wide as int),
                wide > 1,
        ;
        q * wide
    }
}

fn alignment_for(s: &FieldShape, packing: u8) -> (r: u8)
    ensures
        r == placed_alignment(*s, packing),
{
    if packing != 0 {
        if s.alignment <= packing {
            s.alignment
        } else {
            packing
        }
    } else if s.alignment < 4 && s.natural_alignment != 0 {
        s.natural_alignment
    } else {
        s.alignment
    }
}

/// Lays out `fields`, in order, behind a base type that takes
/// `actual_parent_size` bytes and is aligned at `parent_alignment`. A
/// `packing` other than 0 caps the alignment of every field. Fails exactly
/// when the rounded instance size does not fit in 32 bits.
pub fn layout_fields(
    fields: &Vec<FieldShape>,
    actual_parent_size: u32,
    parent_alignment: u8,
    packing: u8,
) -> (r: Result<FieldLayout, LayoutError>)
    ensures
        match r {
            Ok(layout) => {
                &&& class_size_of(fields@, actual_parent_size, parent_alignment, packing)
                    <= u32::MAX
                &&& is_layout_of(layout, fields@, actual_parent_size, parent_alignment, packing)
            },
            Err(e) => {
                &&& e == LayoutError::SizeOverflow
                &&& class_size_of(fields@, actual_parent_size, parent_alignment, packing)
                    > u32::MAX
            },
        },
{
    let n = fields.len();
    let mut offsets: Vec<u32> = Vec::new();
    let mut actual: u64 = actual_parent_size as u64;
    let mut minimum: u8 = parent_alignment;
    let mut natural: u8 = 0;
    let mut k: usize = 0;
    while k < n
        invariant
            n == fields.len(),
            k <= n,
            offsets.len() == k,
            actual <= u32::MAX,
            actual == state_after(
                fields@,
                actual_parent_size,
                parent_alignment,
                packing,
                k as nat,
            ).actual_size,
            minimum == state_after(
                fields@,
                actual_parent_size,
                parent_alignment,
                packing,
                k as nat,
            ).minimum_alignment,
            natural == state_after(
                fields@,
                actual_parent_size,
                parent_alignment,
                packing,
                k as nat,
            ).natural_alignment,
            forall|j: int|
                0 <= j < k ==> #[trigger] offsets[j] == offset_of(
                    fields@,
                    actual_parent_size,
                    parent_alignment,
                    packing,
                    j,
                ),
        decreases n - k,
    {
        let s = &fields[k];
        let a = alignment_for(s, packing);
        let offset = align_up(actual, a);
        let size: u64 = if s.size == 0 {
            1
        } else {
            s.size as u64
        };
        let end = offset + size;
        proof {
            let ghost after = state_after(
                fields@,
                actual_parent_size,
                parent_alignment,
                packing,
                (k + 1) as nat,
            );
            assert(after.actual_size == end);
            lemma_state_bounds(
                fields@,
                actual_parent_size,
                parent_alignment,
                packing,
                (k + 1) as nat,
                n as nat,
            );
            let ghost last = state_after(
                fields@,
                actual_parent_size,
                parent_alignment,
                packing,
                n as nat,
            );
            lemma_align_to(last.actual_size, last.minimum_alignment);
        }
        if end > 0xffff_ffff {
            return Err(LayoutError::SizeOverflow);
        }
        offsets.push(offset as u32);
        actual = end;
        if a > minimum {
            minimum = a;
        }
        if s.alignment > natural {
            natural = s.alignment;
        }
        if s.natural_alignment > natural {
            natural = s.natural_alignment;
        }
        k += 1;
    }
    let class_size = align_up(actual, minimum);
    if class_size > 0xffff_ffff {
        return Err(LayoutError::SizeOverflow);
    }
    Ok(
        FieldLayout {
            offsets,
            class_size: class_size as u32,
            actual_size: actual as u32,
            minimum_alignment: minimum,
            natural_alignment: natural,
        },
    )
}

} // verus!
