//! State of building the mid-level IR of a function: locals and their versions,
//! scopes, drops, loops and blocks.

use vstd::prelude::*;

use crate::ast::Type;
use crate::ast::TypeV;
use crate::const_eval::told;
use crate::debug::show_type;
use crate::debug::type_debug;
use crate::literal::Literal;
use crate::literal::{IntKind, LiteralV};
use crate::mir::{MirBlock, MirLocal, MirPlace, MirStmt, MirTerminator, SsaLocal};
use crate::mir::{BlockV, LocalV, PlaceV, StmtV, TermV};
use crate::table::{KeySet, Table};
use crate::text::cat3;

verus! {

/// A loop that is being built: where `break` goes, and how many scopes are around it.
#[derive(Clone, Copy, Debug, PartialEq, Eq, Structural)]
pub struct LoopCtx {
    pub break_target: usize,
    pub scope_depth: usize,
}

/// The state of building a function.
pub struct MirBuilder {
    pub locals: Vec<MirLocal>,
    /// The names in scope, innermost scope last.
    pub scope: Vec<Table<String, usize>>,
    /// The locals of each scope, in the order of their declaration.
    pub scope_vars: Vec<Vec<usize>>,
    /// The current version of each local that has been assigned again.
    pub ssa_versions: Table<usize, u32>,
    /// The values that were moved or dropped.
    pub moved: KeySet<SsaLocal>,
    pub loop_stack: Vec<LoopCtx>,
    pub blocks: Vec<MirBlock>,
    pub current_block: usize,
}

/// The version that a local has.
pub open spec fn version_of(versions: Map<usize, u32>, id: usize) -> u32 {
    if versions.contains_key(id) {
        versions[id]
    } else {
        0
    }
}

/// The current version of a local.
pub open spec fn current(versions: Map<usize, u32>, id: usize) -> SsaLocal {
    SsaLocal { base_id: id, version: version_of(versions, id) }
}

/// The scopes with one more local in the innermost.
pub open spec fn declared(vars: Seq<Seq<usize>>, id: usize) -> Seq<Seq<usize>> {
    vars.update(vars.len() - 1, vars.last().push(id))
}

/// The values of a scope's locals that were not moved, in the reverse order of their
/// declaration.
pub open spec fn scope_drops(
    ids: Seq<usize>,
    versions: Map<usize, u32>,
    moved: Set<SsaLocal>,
) -> Seq<SsaLocal>
    decreases ids.len(),
{
    if ids.len() == 0 {
        Seq::empty()
    } else {
        let v = current(versions, ids.last());
        let rest = scope_drops(ids.drop_last(), versions, moved);
        if moved.contains(v) {
            rest
        } else {
            seq![v] + rest
        }
    }
}

/// The values to drop on leaving scopes, innermost scope first.
pub open spec fn drops(
    vars: Seq<Seq<usize>>,
    versions: Map<usize, u32>,
    moved: Set<SsaLocal>,
) -> Seq<SsaLocal>
    decreases vars.len(),
{
    if vars.len() == 0 {
        Seq::empty()
    } else {
        scope_drops(vars.last(), versions, moved) + drops(vars.drop_last(), versions, moved)
    }
}

/// The statements that drop values.
pub open spec fn drop_stmts(values: Seq<SsaLocal>) -> Seq<StmtV> {
    values.map_values(|v: SsaLocal| StmtV::Drop { place: PlaceV::Ssa(v) })
}

/// The innermost binding of a name.
pub open spec fn found(scopes: Seq<Map<Seq<char>, usize>>, name: Seq<char>) -> Option<usize>
    decreases scopes.len(),
{
    if scopes.len() == 0 {
        None
    } else if scopes.last().contains_key(name) {
        Some(scopes.last()[name])
    } else {
        found(scopes.drop_last(), name)
    }
}

/// The local that a place lies in.
pub open spec fn root_ssa(p: PlaceV) -> SsaLocal
    decreases p,
{
    match p {
        PlaceV::Ssa(s) => s,
        PlaceV::Field { base, field } => root_ssa(*base),
        PlaceV::Index { base, index } => root_ssa(*base),
        PlaceV::Deref(base) => root_ssa(*base),
        PlaceV::EnumPayload { base, enum_name, variant_name } => root_ssa(*base),
    }
}

/// The unsigned number below `m` with the same low bits as `v`; `m` is a power of two.
pub open spec fn wrapped(v: int, m: int) -> int {
    v % m
}

/// The signed number with the same low bits as `v`; half its range is below zero.
pub open spec fn wrapped_signed(v: int, m: int) -> int {
    if v % m >= m / 2 {
        v % m - m
    } else {
        v % m
    }
}

/// The literal of an integer type with the low bits of a value.
pub open spec fn literal_for(v: i64, t: TypeV) -> Result<LiteralV, Seq<char>> {
    match t {
        TypeV::I8 => Ok(LiteralV::Int(IntKind::I8, wrapped_signed(v as int, 0x100))),
        TypeV::I16 => Ok(LiteralV::Int(IntKind::I16, wrapped_signed(v as int, 0x1_0000))),
        TypeV::I32 => Ok(LiteralV::Int(IntKind::I32, wrapped_signed(v as int, 0x1_0000_0000))),
        TypeV::I64 => Ok(LiteralV::Int(IntKind::I64, v as int)),
        TypeV::I128 => Ok(LiteralV::Int(IntKind::I128, v as int)),
        TypeV::U8 => Ok(LiteralV::Int(IntKind::U8, wrapped(v as int, 0x100))),
        TypeV::U16 => Ok(LiteralV::Int(IntKind::U16, wrapped(v as int, 0x1_0000))),
        TypeV::U32 => Ok(LiteralV::Int(IntKind::U32, wrapped(v as int, 0x1_0000_0000))),
        TypeV::U64 => Ok(LiteralV::Int(IntKind::U64, wrapped(v as int, 0x1_0000_0000_0000_0000))),
        TypeV::U128 => Ok(
            LiteralV::Int(
                IntKind::U128,
                wrapped(v as int, 0x1_0000_0000_0000_0000_0000_0000_0000_0000int),
            ),
        ),
        _ => Err(
            "match 条件是整数类型，但字面量模式配的类型是 "@ + type_debug(t)
                + "——不是任何已知的整数类型，这本该在 sema 阶段就被拦下"@,
        ),
    }
}

/// What is dropped is exactly what was not moved.
pub proof fn lemma_drops_exact(
    vars: Seq<Seq<usize>>,
    versions: Map<usize, u32>,
    moved: Set<SsaLocal>,
    v: SsaLocal,
)
    ensures
        drops(vars, versions, moved).contains(v) <==> !moved.contains(v) && exists|i: int, j: int|
            0 <= i < vars.len() && 0 <= j < vars[i].len() && v == current(
                versions,
                #[trigger] vars[i][j],
            ),
    decreases vars.len(),
{
    if vars.len() > 0 {
        let front = vars.drop_last();
        let a = scope_drops(vars.last(), versions, moved);
        let b = drops(front, versions, moved);
        lemma_drops_exact(front, versions, moved, v);
        lemma_scope_drops_exact(vars.last(), versions, moved, v);
        if drops(vars, versions, moved).contains(v) {
            let k = choose|k: int| 0 <= k < (a + b).len() && (a + b)[k] == v;
            if k < a.len() {
                assert(a.contains(v)) by {
                    assert(a[k] == v);
                }
                let j = choose|j: int|
                    0 <= j < vars.last().len() && v == current(
                        versions,
                        #[trigger] vars.last()[j],
                    );
                assert(vars[vars.len() - 1][j] == vars.last()[j]);
            } else {
                assert(b.contains(v)) by {
                    assert(b[k - a.len()] == v);
                }
                let (i, j) = choose|i: int, j: int|
                    0 <= i < front.len() && 0 <= j < front[i].len() && v == current(
                        versions,
                        #[trigger] front[i][j],
                    );
                assert(vars[i][j] == front[i][j]);
            }
        } else if !moved.contains(v) {
            assert forall|i: int, j: int|
                0 <= i < vars.len() && 0 <= j < vars[i].len() implies v != current(
                versions,
                #[trigger] vars[i][j],
            ) by {
                if v == current(versions, vars[i][j]) {
                    if i == vars.len() - 1 {
                        assert(vars.last()[j] == vars[i][j]);
                        let k = choose|k: int| 0 <= k < a.len() && a[k] == v;
                        assert((a + b)[k] == v);
                    } else {
                        assert(front[i][j] == vars[i][j]);
                        let k = choose|k: int| 0 <= k < b.len() && b[k] == v;
                        assert((a + b)[a.len() + k] == v);
                    }
                }
            }
        }
    }
}

proof fn lemma_scope_drops_exact(
    ids: Seq<usize>,
    versions: Map<usize, u32>,
    moved: Set<SsaLocal>,
    v: SsaLocal,
)
    ensures
        scope_drops(ids, versions, moved).contains(v) <==> !moved.contains(v) && exists|j: int|
            0 <= j < ids.len() && v == current(versions, #[trigger] ids[j]),
    decreases ids.len(),
{
    if ids.len() > 0 {
        let front = ids.drop_last();
        let w = current(versions, ids.last());
        let rest = scope_drops(front, versions, moved);
        lemma_scope_drops_exact(front, versions, moved, v);
        let all = scope_drops(ids, versions, moved);
        if all.contains(v) {
            let k = choose|k: int| 0 <= k < all.len() && all[k] == v;
            if moved.contains(w) {
                assert(rest.contains(v));
                let j = choose|j: int|
                    0 <= j < front.len() && v == current(versions, #[trigger] front[j]);
                assert(ids[j] == front[j]);
            } else if k == 0 {
                assert(ids[ids.len() - 1] == ids.last());
            } else {
                assert(rest[k - 1] == v);
                let j = choose|j: int|
                    0 <= j < front.len() && v == current(versions, #[trigger] front[j]);
                assert(ids[j] == front[j]);
            }
        } else if !moved.contains(v) {
            assert forall|j: int| 0 <= j < ids.len() implies v != current(
                versions,
                #[trigger] ids[j],
            ) by {
                if v == current(versions, ids[j]) {
                    if j == ids.len() - 1 {
                        assert(all[0] == v);
                    } else {
                        assert(front[j] == ids[j]);
                        let k = choose|k: int| 0 <= k < rest.len() && rest[k] == v;
                        if moved.contains(w) {
                            assert(all[k] == v);
                        } else {
                            assert(all[k + 1] == v);
                        }
                    }
                }
            }
        }
    }
}

/// Nothing is dropped twice: once the values of scopes were dropped, leaving the same
/// scopes again drops nothing.
pub proof fn lemma_drops_once(
    vars: Seq<Seq<usize>>,
    versions: Map<usize, u32>,
    moved: Set<SsaLocal>,
)
    ensures
        drops(vars, versions, moved.union(drops(vars, versions, moved).to_set())).len() == 0,
{
    let first = drops(vars, versions, moved);
    let after = moved.union(first.to_set());
    let again = drops(vars, versions, after);
    if again.len() > 0 {
        let v = again[0];
        assert(again.contains(v));
        lemma_drops_exact(vars, versions, after, v);
        lemma_drops_exact(vars, versions, moved, v);
    }
}

/// What was declared last is dropped first: a local that is declared adds its value in
/// front of what was to be dropped, unless that was moved.
pub proof fn lemma_last_dropped_first(
    vars: Seq<Seq<usize>>,
    versions: Map<usize, u32>,
    moved: Set<SsaLocal>,
    id: usize,
)
    requires
        vars.len() > 0,
    ensures
        drops(declared(vars, id), versions, moved) == (if moved.contains(current(versions, id)) {
            drops(vars, versions, moved)
        } else {
            seq![current(versions, id)] + drops(vars, versions, moved)
        }),
{
    let ids = vars.last().push(id);
    assert(ids.drop_last() =~= vars.last());
    assert(declared(vars, id).drop_last() =~= vars.drop_last());
    assert(declared(vars, id).last() == ids);
}

/// A new scope has nothing to drop.
pub proof fn lemma_new_scope_drops_nothing(
    vars: Seq<Seq<usize>>,
    versions: Map<usize, u32>,
    moved: Set<SsaLocal>,
)
    ensures
        drops(vars.push(Seq::empty()), versions, moved) == drops(vars, versions, moved),
{
    assert(vars.push(Seq::<usize>::empty()).drop_last() =~= vars);
}

/// A number that the integer type can hold is the value of its literal.
pub proof fn lemma_literal_exact(v: i64, t: TypeV)
    requires
        t is I8 ==> i8::MIN <= v <= i8::MAX,
        t is I16 ==> i16::MIN <= v <= i16::MAX,
        t is I32 ==> i32::MIN <= v <= i32::MAX,
        t is U8 ==> 0 <= v <= u8::MAX,
        t is U16 ==> 0 <= v <= u16::MAX,
        t is U32 ==> 0 <= v <= u32::MAX,
        t is U64 || t is U128 ==> 0 <= v,
        literal_for(v, t) is Ok,
    ensures
        literal_for(v, t)->Ok_0 matches LiteralV::Int(_, n) && n == v,
{
}

/// A name that was bound is found, and other names are found as before.
pub proof fn lemma_bound_found(
    scopes: Seq<Map<Seq<char>, usize>>,
    name: Seq<char>,
    id: usize,
    other: Seq<char>,
)
    requires
        scopes.len() > 0,
    ensures
        ({
            let after = scopes.update(scopes.len() - 1, scopes.last().insert(name, id));
            &&& found(after, name) == Some(id)
            &&& other != name ==> found(after, other) == found(scopes, other)
        }),
{
    let after = scopes.update(scopes.len() - 1, scopes.last().insert(name, id));
    assert(after.drop_last() =~= scopes.drop_last());
}

/// A new scope hides nothing.
pub proof fn lemma_new_scope_hides_nothing(scopes: Seq<Map<Seq<char>, usize>>, name: Seq<char>)
    ensures
        found(scopes.push(Map::empty()), name) == found(scopes, name),
{
    assert(scopes.push(Map::<Seq<char>, usize>::empty()).drop_last() =~= scopes);
}

/// A negative number without its sign bits.
fn low_word(v: i64) -> (r: u64)
    ensures
        r == wrapped(v as int, 0x1_0000_0000_0000_0000),
{
    if v >= 0 {
        v as u64
    } else {
        (v as i128 + 0x1_0000_0000_0000_0000) as u64
    }
}

/// The low 128 bits of a number.
fn low_wide(v: i64) -> (r: u128)
    ensures
        r == wrapped(v as int, 0x1_0000_0000_0000_0000_0000_0000_0000_0000int),
{
    if v >= 0 {
        v as u128
    } else {
        0xffff_ffff_ffff_ffff_ffff_ffff_ffff_ffff - (-(v as i128) - 1) as u128
    }
}

/// The low bits of a number; `m` is two to the power of their count.
fn low_unsigned(v: i64, m: u64) -> (r: u64)
    requires
        m == 0x100 || m == 0x1_0000 || m == 0x1_0000_0000,
    ensures
        r == wrapped(v as int, m as int),
        r < m,
{
    let u = low_word(v);
    proof {
        let w = u as int;
        assert(w % 0x100 == v as int % 0x100);
        assert(w % 0x1_0000 == v as int % 0x1_0000);
        assert(w % 0x1_0000_0000 == v as int % 0x1_0000_0000);
    }
    u % m
}

/// The low bits of a number as a signed number; `m` is two to the power of their
/// count.
fn low_signed(v: i64, m: u64) -> (r: i64)
    requires
        m == 0x100 || m == 0x1_0000 || m == 0x1_0000_0000,
    ensures
        r == wrapped_signed(v as int, m as int),
        -(m as int) <= 2 * r < m,
{
    let u = low_unsigned(v, m);
    if u >= m / 2 {
        u as i64 - m as i64
    } else {
        u as i64
    }
}

/// The state that only `blocks` tells from the given one.
pub open spec fn blocks_changed(before: MirBuilder, after: MirBuilder) -> bool {
    after == (MirBuilder { blocks: after.blocks, ..before })
}

/// A block with more statements.
pub open spec fn with_stmts(b: BlockV, more: Seq<StmtV>) -> BlockV {
    BlockV { id: b.id, stmts: b.stmts + more, terminator: b.terminator }
}

impl MirBuilder {
    /// A builder with nothing built.
    pub fn new() -> (r: Self)
        ensures
            r.locals@.len() == 0,
            r.scope@.len() == 0,
            r.scope_vars@.len() == 0,
            r.ssa_versions.deep_view() == Map::<usize, u32>::empty(),
            r.moved.deep_view() == Set::<SsaLocal>::empty(),
            r.loop_stack@.len() == 0,
            r.blocks@.len() == 0,
            r.current_block == 0,
    {
        MirBuilder {
            locals: Vec::new(),
            scope: Vec::new(),
            scope_vars: Vec::new(),
            ssa_versions: Table::new(),
            moved: KeySet::new(),
            loop_stack: Vec::new(),
            blocks: Vec::new(),
            current_block: 0,
        }
    }

    /// Adds a local, and its id to the innermost scope if so told.
    pub fn new_local(
        &mut self,
        name: Option<String>,
        ty: Type,
        mutable: bool,
        add_to_scope: bool,
    ) -> (r: usize)
        requires
            add_to_scope ==> old(self).scope_vars.len() > 0,
        ensures
            r == old(self).locals.len(),
            *final(self) == (MirBuilder {
                locals: final(self).locals,
                scope_vars: final(self).scope_vars,
                ..*old(self)
            }),
            final(self).locals.deep_view() == old(self).locals.deep_view().push(
                LocalV {
                    id: r,
                    name: name.deep_view(),
                    ty: ty.deep_view(),
                    mutable,
                    persist: false,
                    is_param: false,
                },
            ),
            final(self).scope_vars.deep_view() == (if add_to_scope {
                declared(old(self).scope_vars.deep_view(), r)
            } else {
                old(self).scope_vars.deep_view()
            }),
    {
        let id = self.locals.len();
        self.add_local(
            MirLocal { id, name, ty, mutable, persist: false, is_param: false },
            add_to_scope,
        );
        id
    }

    /// Adds a local, and its id to the innermost scope if so told.
    fn add_local(&mut self, local: MirLocal, add_to_scope: bool)
        requires
            add_to_scope ==> old(self).scope_vars.len() > 0,
        ensures
            *final(self) == (MirBuilder {
                locals: final(self).locals,
                scope_vars: final(self).scope_vars,
                ..*old(self)
            }),
            final(self).locals.deep_view() == old(self).locals.deep_view().push(local.deep_view()),
            final(self).scope_vars.deep_view() == (if add_to_scope {
                declared(old(self).scope_vars.deep_view(), local.id)
            } else {
                old(self).scope_vars.deep_view()
            }),
    {
        let id = local.id;
        let ghost lv = local.deep_view();
        let ghost locals = self.locals.deep_view();
        self.locals.push(local);
        assert(self.locals.deep_view() =~= locals.push(lv));
        if add_to_scope {
            let ghost vars = self.scope_vars.deep_view();
            let n = self.scope_vars.len();
            assert(self.scope_vars@[n - 1].deep_view() == vars.last());
            self.scope_vars[n - 1].push(id);
            assert(self.scope_vars@[n - 1].deep_view() =~= vars.last().push(id));
            assert(self.scope_vars.deep_view() =~= declared(vars, id));
        }
    }

    /// Adds a local for a parameter.
    pub fn new_param_local(&mut self, name: String, ty: Type) -> (r: usize)
        ensures
            r == old(self).locals.len(),
            *final(self) == (MirBuilder {
                locals: final(self).locals,
                scope_vars: final(self).scope_vars,
                ..*old(self)
            }),
            final(self).scope_vars.deep_view() == old(self).scope_vars.deep_view(),
            final(self).locals.deep_view() == old(self).locals.deep_view().push(
                LocalV {
                    id: r,
                    name: Some(name@),
                    ty: ty.deep_view(),
                    mutable: false,
                    persist: false,
                    is_param: true,
                },
            ),
    {
        let id = self.locals.len();
        self.add_local(
            MirLocal { id, name: Some(name), ty, mutable: false, persist: false, is_param: true },
            false,
        );
        id
    }

    /// Adds a local that outlives its scope's runs to the innermost scope.
    pub fn new_persist_local(&mut self, name: Option<String>, ty: Type, mutable: bool) -> (r: usize)
        requires
            old(self).scope_vars.len() > 0,
        ensures
            r == old(self).locals.len(),
            *final(self) == (MirBuilder {
                locals: final(self).locals,
                scope_vars: final(self).scope_vars,
                ..*old(self)
            }),
            final(self).scope_vars.deep_view() == declared(old(self).scope_vars.deep_view(), r),
            final(self).locals.deep_view() == old(self).locals.deep_view().push(
                LocalV {
                    id: r,
                    name: name.deep_view(),
                    ty: ty.deep_view(),
                    mutable,
                    persist: true,
                    is_param: false,
                },
            ),
    {
        let id = self.locals.len();
        self.add_local(MirLocal { id, name, ty, mutable, persist: true, is_param: false }, true);
        id
    }

    /// The version of a local.
    fn version(&self, base_id: usize) -> (r: u32)
        ensures
            r == version_of(self.ssa_versions.deep_view(), base_id),
    {
        match self.ssa_versions.get(&base_id) {
            Some(v) => *v,
            None => 0,
        }
    }

    /// Gives a local its next version.
    pub fn new_version(&mut self, base_id: usize) -> (r: u32)
        requires
            version_of(old(self).ssa_versions.deep_view(), base_id) < u32::MAX,
        ensures
            r == version_of(old(self).ssa_versions.deep_view(), base_id) + 1,
            *final(self) == (MirBuilder { ssa_versions: final(self).ssa_versions, ..*old(self) }),
            final(self).ssa_versions.deep_view() == old(self).ssa_versions.deep_view().insert(
                base_id,
                r,
            ),
    {
        let ver = self.version(base_id) + 1;
        self.ssa_versions.insert(base_id, ver);
        ver
    }

    /// Adds a local without a name to the innermost scope.
    pub fn new_temp(&mut self, ty: Type) -> (r: usize)
        requires
            old(self).scope_vars.len() > 0,
        ensures
            r == old(self).locals.len(),
            *final(self) == (MirBuilder {
                locals: final(self).locals,
                scope_vars: final(self).scope_vars,
                ..*old(self)
            }),
            final(self).locals.deep_view() == old(self).locals.deep_view().push(
                LocalV {
                    id: r,
                    name: None,
                    ty: ty.deep_view(),
                    mutable: false,
                    persist: false,
                    is_param: false,
                },
            ),
            final(self).scope_vars.deep_view() == declared(old(self).scope_vars.deep_view(), r),
    {
        self.new_local(None, ty, false, true)
    }

    /// The current version of a local.
    pub fn current_ssa(&self, base_id: usize) -> (r: SsaLocal)
        ensures
            r == current(self.ssa_versions.deep_view(), base_id),
    {
        SsaLocal { base_id, version: self.version(base_id) }
    }

    /// The local that a place lies in.
    pub fn place_base_ssa(place: &MirPlace) -> (r: Option<SsaLocal>)
        ensures
            r == Some(root_ssa(place.deep_view())),
        decreases place,
    {
        match place {
            MirPlace::Ssa(s) => Some(*s),
            MirPlace::Field { base, .. } => Self::place_base_ssa(base),
            MirPlace::Index { base, .. } => Self::place_base_ssa(base),
            MirPlace::Deref(base) => Self::place_base_ssa(base),
            MirPlace::EnumPayload { base, .. } => Self::place_base_ssa(base),
        }
    }

    /// The literal of an integer type with the low bits of a value.
    pub fn int_literal_for_type(v: i64, ty: &Type) -> (r: Result<Literal, String>)
        ensures
            told(r) == literal_for(v, ty.deep_view()),
    {
        match ty {
            Type::I8 => Ok(Literal::Int8(low_signed(v, 0x100) as i8)),
            Type::I16 => Ok(Literal::Int16(low_signed(v, 0x1_0000) as i16)),
            Type::I32 => Ok(Literal::Int32(low_signed(v, 0x1_0000_0000) as i32)),
            Type::I64 => Ok(Literal::Int64(v)),
            Type::I128 => Ok(Literal::Int128(v as i128)),
            Type::U8 => Ok(Literal::UInt8(low_unsigned(v, 0x100) as u8)),
            Type::U16 => Ok(Literal::UInt16(low_unsigned(v, 0x1_0000) as u16)),
            Type::U32 => Ok(Literal::UInt32(low_unsigned(v, 0x1_0000_0000) as u32)),
            Type::U64 => Ok(Literal::UInt64(low_word(v))),
            Type::U128 => Ok(Literal::UInt128(low_wide(v))),
            _ => Err(
                cat3(
                    "match 条件是整数类型，但字面量模式配的类型是 ",
                    show_type(ty).as_str(),
                    "——不是任何已知的整数类型，这本该在 sema 阶段就被拦下",
                ),
            ),
        }
    }

    /// Enters a scope.
    pub fn push_scope(&mut self)
        ensures
            *final(self) == (MirBuilder {
                scope: final(self).scope,
                scope_vars: final(self).scope_vars,
                ..*old(self)
            }),
            final(self).scope.deep_view() == old(self).scope.deep_view().push(Map::empty()),
            final(self).scope_vars.deep_view() == old(self).scope_vars.deep_view().push(
                Seq::empty(),
            ),
    {
        let ghost scope = self.scope.deep_view();
        let ghost vars = self.scope_vars.deep_view();
        self.scope.push(Table::new());
        let none: Vec<usize> = Vec::new();
        assert(none.deep_view() =~= Seq::empty());
        self.scope_vars.push(none);
        assert(self.scope.deep_view() =~= scope.push(Map::empty()));
        assert(self.scope_vars.deep_view() =~= vars.push(Seq::empty()));
    }

    /// Leaves the innermost scope: drops what is left of its locals.
    pub fn pop_scope(&mut self)
        requires
            old(self).current_block < old(self).blocks.len(),
        ensures
            *final(self) == (MirBuilder {
                scope: final(self).scope,
                scope_vars: final(self).scope_vars,
                moved: final(self).moved,
                blocks: final(self).blocks,
                ..*old(self)
            }),
            final(self).scope@ == (if old(self).scope.len() == 0 {
                old(self).scope@
            } else {
                old(self).scope@.drop_last()
            }),
            ({
                let vars = old(self).scope_vars.deep_view();
                let b = old(self).current_block as int;
                let gone = if vars.len() == 0 {
                    Seq::empty()
                } else {
                    scope_drops(
                        vars.last(),
                        old(self).ssa_versions.deep_view(),
                        old(self).moved.deep_view(),
                    )
                };
                &&& final(self).scope_vars@ == (if vars.len() == 0 {
                    old(self).scope_vars@
                } else {
                    old(self).scope_vars@.drop_last()
                })
                &&& final(self).blocks.deep_view() == old(self).blocks.deep_view().update(
                    b,
                    with_stmts(old(self).blocks.deep_view()[b], drop_stmts(gone)),
                )
                &&& final(self).moved.deep_view() == old(self).moved.deep_view().union(
                    gone.to_set(),
                )
            }),
    {
        let ghost b = self.current_block as int;
        let ghost before = self.blocks.deep_view();
        if self.scope_vars.len() > 0 {
            let depth = self.scope_vars.len() - 1;
            let ghost vars = self.scope_vars.deep_view();
            proof {
                let top = vars.skip(depth as int);
                assert(top.last() == vars.last());
                assert(top.drop_last() =~= Seq::empty());
                let v = self.ssa_versions.deep_view();
                let m = self.moved.deep_view();
                assert(drops(top.drop_last(), v, m) =~= Seq::empty());
                assert(drops(top, v, m) =~= scope_drops(vars.last(), v, m));
            }
            self.emit_drops_for_scopes(depth);
            self.scope_vars.pop();
        } else {
            assert(drop_stmts(Seq::empty()) =~= Seq::empty());
            assert(before.update(b, with_stmts(before[b], Seq::empty())) =~= before);
            assert(self.moved.deep_view().union(Seq::<SsaLocal>::empty().to_set())
                =~= self.moved.deep_view());
        }
        self.scope.pop();
    }

    /// The values of a scope's locals that were not moved.
    fn collect_drops(&self, ids: &Vec<usize>, out: &mut Vec<SsaLocal>)
        ensures
            final(out)@ == old(out)@ + scope_drops(
                ids@,
                self.ssa_versions.deep_view(),
                self.moved.deep_view(),
            ),
    {
        let ghost versions = self.ssa_versions.deep_view();
        let ghost moved = self.moved.deep_view();
        let mut j: usize = ids.len();
        assert(ids@.take(j as int) =~= ids@);
        while j > 0
            invariant
                j <= ids.len(),
                versions == self.ssa_versions.deep_view(),
                moved == self.moved.deep_view(),
                old(out)@ + scope_drops(ids@, versions, moved) == out@ + scope_drops(
                    ids@.take(j as int),
                    versions,
                    moved,
                ),
            decreases j,
        {
            assert(ids@.take(j as int).last() == ids@[j - 1]);
            assert(ids@.take(j as int).drop_last() =~= ids@.take(j - 1));
            j = j - 1;
            let ssa = self.current_ssa(ids[j]);
            let ghost before = out@;
            if !self.moved.contains(&ssa) {
                out.push(ssa);
                proof {
                    let rest = scope_drops(ids@.take(j as int), versions, moved);
                    assert(before + (seq![ssa] + rest) =~= out@ + rest);
                }
            }
        }
        assert(out@ + Seq::<SsaLocal>::empty() =~= out@);
    }

    /// Drops what is left of the locals of the scopes from `from_depth` on, innermost
    /// scope first and last declaration first.
    pub fn emit_drops_for_scopes(&mut self, from_depth: usize)
        requires
            from_depth <= old(self).scope_vars.len(),
            old(self).current_block < old(self).blocks.len(),
        ensures
            *final(self) == (MirBuilder {
                moved: final(self).moved,
                blocks: final(self).blocks,
                ..*old(self)
            }),
            ({
                let b = old(self).current_block as int;
                let gone = drops(
                    old(self).scope_vars.deep_view().skip(from_depth as int),
                    old(self).ssa_versions.deep_view(),
                    old(self).moved.deep_view(),
                );
                &&& final(self).blocks.deep_view() == old(self).blocks.deep_view().update(
                    b,
                    with_stmts(old(self).blocks.deep_view()[b], drop_stmts(gone)),
                )
                &&& final(self).moved.deep_view() == old(self).moved.deep_view().union(
                    gone.to_set(),
                )
            }),
    {
        let ghost vars = self.scope_vars.deep_view();
        let ghost versions = self.ssa_versions.deep_view();
        let ghost moved = self.moved.deep_view();
        let ghost gone = drops(vars.skip(from_depth as int), versions, moved);
        let mut to_drop: Vec<SsaLocal> = Vec::new();
        let mut i: usize = self.scope_vars.len();
        assert(vars.subrange(from_depth as int, i as int) =~= vars.skip(from_depth as int));
        assert(to_drop@ + gone =~= gone);
        while i > from_depth
            invariant
                from_depth <= i <= self.scope_vars.len(),
                *self == *old(self),
                vars == self.scope_vars.deep_view(),
                versions == self.ssa_versions.deep_view(),
                moved == self.moved.deep_view(),
                gone == to_drop@ + drops(
                    vars.subrange(from_depth as int, i as int),
                    versions,
                    moved,
                ),
            decreases i,
        {
            let ghost part = vars.subrange(from_depth as int, i as int);
            assert(part.last() == self.scope_vars@[i - 1].deep_view());
            assert(part.drop_last() =~= vars.subrange(from_depth as int, i - 1));
            i = i - 1;
            let ghost before = to_drop@;
            assert(self.scope_vars@[i as int].deep_view() =~= self.scope_vars@[i as int]@);
            self.collect_drops(&self.scope_vars[i], &mut to_drop);
            proof {
                let x = scope_drops(part.last(), versions, moved);
                let y = drops(part.drop_last(), versions, moved);
                assert(before + (x + y) =~= (before + x) + y);
            }
        }
        assert(vars.subrange(from_depth as int, i as int) =~= Seq::empty());
        assert(to_drop@ + Seq::<SsaLocal>::empty() =~= to_drop@);
        assert(gone == to_drop@);
        let ghost b = self.current_block as int;
        let ghost start = self.blocks.deep_view();
        let mut k: usize = 0;
        assert(drop_stmts(gone.take(0)) =~= Seq::empty());
        assert(start.update(b, with_stmts(start[b], drop_stmts(gone.take(0)))) =~= start) by {
            assert(start[b].stmts + drop_stmts(gone.take(0)) =~= start[b].stmts);
        }
        assert(moved.union(gone.take(0).to_set()) =~= moved);
        while k < to_drop.len()
            invariant
                k <= to_drop.len(),
                gone == to_drop@,
                b == self.current_block,
                b < self.blocks.len(),
                start == old(self).blocks.deep_view(),
                start.len() == self.blocks.len(),
                moved == old(self).moved.deep_view(),
                *self == (MirBuilder { moved: self.moved, blocks: self.blocks, ..*old(self) }),
                self.blocks.deep_view() == start.update(
                    b,
                    with_stmts(start[b], drop_stmts(gone.take(k as int))),
                ),
                self.moved.deep_view() == moved.union(gone.take(k as int).to_set()),
            decreases to_drop.len() - k,
        {
            let ssa = to_drop[k];
            let ghost front = gone.take(k as int);
            let ghost next = gone.take(k as int + 1);
            self.push_stmt(MirStmt::Drop { place: MirPlace::Ssa(ssa) });
            self.moved.insert(ssa);
            proof {
                assert(next =~= front.push(ssa));
                assert(drop_stmts(next) =~= drop_stmts(front).push(
                    StmtV::Drop { place: PlaceV::Ssa(ssa) },
                ));
                assert(start[b].stmts + drop_stmts(next) =~= (start[b].stmts + drop_stmts(
                    front,
                )) + seq![StmtV::Drop { place: PlaceV::Ssa(ssa) }]);
                assert(self.blocks.deep_view() =~= start.update(
                    b,
                    with_stmts(start[b], drop_stmts(next)),
                ));
                lemma_push_set(front, ssa);
                assert(self.moved.deep_view() =~= moved.union(next.to_set()));
            }
            k = k + 1;
        }
        assert(gone.take(k as int) =~= gone);
    }

    /// Enters a loop.
    pub fn push_loop(&mut self, break_target: usize)
        ensures
            *final(self) == (MirBuilder { loop_stack: final(self).loop_stack, ..*old(self) }),
            final(self).loop_stack@ == old(self).loop_stack@.push(
                LoopCtx { break_target, scope_depth: old(self).scope_vars.len() },
            ),
    {
        let scope_depth = self.scope_vars.len();
        self.loop_stack.push(LoopCtx { break_target, scope_depth });
    }

    /// Leaves the innermost loop.
    pub fn pop_loop(&mut self)
        ensures
            *final(self) == (MirBuilder { loop_stack: final(self).loop_stack, ..*old(self) }),
            final(self).loop_stack@ == (if old(self).loop_stack.len() == 0 {
                old(self).loop_stack@
            } else {
                old(self).loop_stack@.drop_last()
            }),
    {
        self.loop_stack.pop();
    }

    /// Binds a name in the innermost scope.
    pub fn bind(&mut self, name: String, id: usize)
        requires
            old(self).scope.len() > 0,
        ensures
            *final(self) == (MirBuilder { scope: final(self).scope, ..*old(self) }),
            ({
                let s = old(self).scope.deep_view();
                final(self).scope.deep_view() == s.update(
                    s.len() - 1,
                    s.last().insert(name@, id),
                )
            }),
    {
        let ghost s = self.scope.deep_view();
        let n = self.scope.len();
        assert(self.scope@[n - 1].deep_view() == s.last());
        let ghost nv = name@;
        self.scope[n - 1].insert(name, id);
        assert(self.scope.deep_view() =~= s.update(n - 1, s.last().insert(nv, id)));
    }

    /// The innermost binding of a name.
    pub fn lookup(&self, name: &str) -> (r: Option<usize>)
        ensures
            r == found(self.scope.deep_view(), name@),
    {
        let ghost all = self.scope.deep_view();
        let key = name.to_owned();
        let mut i: usize = self.scope.len();
        assert(all.take(i as int) =~= all);
        while i > 0
            invariant
                i <= self.scope.len(),
                all == self.scope.deep_view(),
                key@ == name@,
                found(all, name@) == found(all.take(i as int), name@),
            decreases i,
        {
            assert(all.take(i as int).last() == self.scope@[i - 1].deep_view());
            assert(all.take(i as int).drop_last() =~= all.take(i - 1));
            i = i - 1;
            if let Some(id) = self.scope[i].get(&key) {
                return Some(*id);
            }
        }
        None
    }

    /// Adds an empty block whose end is not known yet.
    pub fn new_block(&mut self) -> (r: usize)
        ensures
            r == old(self).blocks.len(),
            blocks_changed(*old(self), *final(self)),
            final(self).blocks.deep_view() == old(self).blocks.deep_view().push(
                BlockV { id: r, stmts: Seq::empty(), terminator: TermV::Unreachable },
            ),
    {
        let id = self.blocks.len();
        let ghost before = self.blocks.deep_view();
        let stmts: Vec<MirStmt> = Vec::new();
        assert(stmts.deep_view() =~= Seq::empty());
        self.blocks.push(MirBlock { id, stmts, terminator: MirTerminator::Unreachable });
        assert(self.blocks.deep_view() =~= before.push(
            BlockV { id, stmts: Seq::empty(), terminator: TermV::Unreachable },
        ));
        id
    }

    /// Goes on building another block.
    pub fn switch_to_block(&mut self, id: usize)
        ensures
            *final(self) == (MirBuilder { current_block: id, ..*old(self) }),
    {
        self.current_block = id;
    }

    /// Adds a statement to the current block.
    pub fn push_stmt(&mut self, stmt: MirStmt)
        requires
            old(self).current_block < old(self).blocks.len(),
        ensures
            blocks_changed(*old(self), *final(self)),
            ({
                let b = old(self).current_block as int;
                let before = old(self).blocks.deep_view();
                final(self).blocks.deep_view() == before.update(
                    b,
                    with_stmts(before[b], seq![stmt.deep_view()]),
                )
            }),
    {
        let b = self.current_block;
        let ghost before = self.blocks.deep_view();
        let ghost sv = stmt.deep_view();
        self.blocks[b].stmts.push(stmt);
        assert(self.blocks@[b as int].stmts.deep_view() =~= before[b as int].stmts + seq![sv]);
        assert(self.blocks.deep_view() =~= before.update(
            b as int,
            with_stmts(before[b as int], seq![sv]),
        ));
    }

    /// Sets the end of the current block.
    pub fn set_terminator(&mut self, term: MirTerminator)
        requires
            old(self).current_block < old(self).blocks.len(),
        ensures
            blocks_changed(*old(self), *final(self)),
            ({
                let b = old(self).current_block as int;
                let before = old(self).blocks.deep_view();
                final(self).blocks.deep_view() == before.update(
                    b,
                    BlockV {
                        id: before[b].id,
                        stmts: before[b].stmts,
                        terminator: term.deep_view(),
                    },
                )
            }),
    {
        let b = self.current_block;
        let ghost before = self.blocks.deep_view();
        let ghost tv = term.deep_view();
        self.blocks[b].terminator = term;
        assert(self.blocks.deep_view() =~= before.update(
            b as int,
            BlockV { id: before[b as int].id, stmts: before[b as int].stmts, terminator: tv },
        ));
    }

    /// Whether the end of the current block is not known yet.
    pub fn current_terminator_is_placeholder(&self) -> (r: bool)
        requires
            self.current_block < self.blocks.len(),
        ensures
            r == (self.blocks.deep_view()[self.current_block as int].terminator is Unreachable),
    {
        match &self.blocks[self.current_block].terminator {
            MirTerminator::Unreachable => true,
            _ => false,
        }
    }
}

proof fn lemma_push_set(s: Seq<SsaLocal>, v: SsaLocal)
    ensures
        s.push(v).to_set() == s.to_set().insert(v),
{
    let t = s.push(v);
    assert forall|x: SsaLocal| t.to_set().contains(x) <==> s.to_set().insert(v).contains(x) by {
        if s.contains(x) {
            let i = choose|i: int| 0 <= i < s.len() && s[i] == x;
            assert(t[i] == x);
        }
        if t.contains(x) && x != v {
            let i = choose|i: int| 0 <= i < t.len() && t[i] == x;
            assert(s[i] == x);
        }
        if x == v {
            assert(t[s.len() as int] == v);
        }
    }
    assert(t.to_set() =~= s.to_set().insert(v));
}

} // verus!
