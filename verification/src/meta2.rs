//! The layered scope environment, register allocator and macro expander.
//!
//! Expansion rewrites the syntax tree into a flat sequence of primitive
//! instructions whose registers are resolved to slots and whose labels are
//! resolved to scope-qualified identities `(name, scopeTag)` — but not yet
//! to absolute addresses.  Every macro invocation mints a fresh scope tag
//! and pushes one environment level, popped when the invocation's body is
//! done; register slots bound in a popped level return to a free list.

use vstd::prelude::*;

use crate::error::CompileError;
use crate::error::ErrorKind;
use crate::lexer::LexPos;
use crate::meta::CodeMeta;
use crate::meta::MacroData;
use crate::meta::clone_code;
use crate::meta::clone_macro_data;
use crate::meta::clone_names;
use crate::meta::meta_arg_pos;
use crate::meta::meta_arg_str_spec;
use crate::meta::same_code;
use crate::meta::same_macro;
use crate::meta::Meta;
use crate::meta::MetaArg;
use crate::util::as_linked;
use crate::util::al_find;
use crate::util::al_has;
use crate::util::lemma_al_find_push;
use crate::util::al_lookup_idx;
use crate::util::append_chars;
use crate::util::chars_to_string;
use crate::util::dec_chars;
use crate::util::dec_spec;
use crate::util::string_to_chars;
use crate::vm::CellType;

verus! {

pub type ParamType = u64;

/// A stack of name-to-value layers, innermost last.  Lookups may scan all
/// layers innermost-first, the innermost layer only, or the outermost
/// layer only.
pub struct ViewSpace<V> {
    pub levels: Vec<Vec<(String, V)>>,
}

/// The layers as sequences of bindings.
pub open spec fn levels_view<V>(levels: Seq<Vec<(String, V)>>) -> Seq<Seq<(String, V)>> {
    levels.map_values(|l: Vec<(String, V)>| l@)
}

/// Innermost-first search over all layers.
pub open spec fn vs_find<V>(levels: Seq<Seq<(String, V)>>, name: Seq<char>) -> Option<V>
    decreases levels.len(),
{
    if levels.len() == 0 {
        None
    } else {
        match al_find(levels.last(), name) {
            Some(v) => Some(v),
            None => vs_find(levels.drop_last(), name),
        }
    }
}

impl<V> ViewSpace<V> {
    /// The layers, innermost last.
    pub open spec fn view_levels(self) -> Seq<Seq<(String, V)>> {
        levels_view(self.levels@)
    }

    /// An empty stack, without even one layer.
    pub fn new() -> (r: Self)
        ensures
            r.view_levels() == Seq::<Seq<(String, V)>>::empty(),
    {
        let r = ViewSpace { levels: Vec::new() };
        proof {
            assert(r.view_levels() =~= Seq::<Seq<(String, V)>>::empty());
        }
        r
    }

    /// Push one empty layer.
    pub fn push_level(&mut self)
        ensures
            final(self).view_levels() == old(self).view_levels().push(
                Seq::<(String, V)>::empty(),
            ),
    {
        self.levels.push(Vec::new());
        proof {
            assert(self.view_levels() =~= old(self).view_levels().push(
                Seq::<(String, V)>::empty(),
            ));
        }
    }

    /// Push a pre-filled layer.
    pub fn push_from(&mut self, from: Vec<(String, V)>)
        ensures
            final(self).view_levels() == old(self).view_levels().push(from@),
    {
        let ghost fv = from@;
        self.levels.push(from);
        proof {
            assert(self.view_levels() =~= old(self).view_levels().push(fv));
        }
    }

    /// Pop the innermost layer and hand it back.
    pub fn pop_level(&mut self) -> (r: Vec<(String, V)>)
        requires
            old(self).view_levels().len() >= 1,
        ensures
            r@ == old(self).view_levels().last(),
            final(self).view_levels() == old(self).view_levels().drop_last(),
    {
        let r = match self.levels.pop() {
            Some(l) => l,
            None => {
                proof {
                    assert(false);
                }
                Vec::new()
            },
        };
        proof {
            assert(self.view_levels() =~= old(self).view_levels().drop_last());
        }
        r
    }

    /// Innermost-first search over all layers.
    pub fn find(&self, name: &String) -> (r: Option<&V>)
        ensures
            match r {
                Some(v) => vs_find(self.view_levels(), name@) == Some(*v),
                None => vs_find(self.view_levels(), name@) is None,
            },
    {
        let ghost whole = self.view_levels();
        let mut i: usize = self.levels.len();
        proof {
            assert(whole.take(i as int) =~= whole);
        }
        while i > 0
            invariant
                i <= self.levels@.len(),
                whole == self.view_levels(),
                vs_find(whole, name@) == vs_find(whole.take(i as int), name@),
            decreases i,
        {
            i -= 1;
            let ghost prefix = whole.take(i + 1);
            proof {
                assert(prefix.last() == whole[i as int]);
                assert(prefix.drop_last() =~= whole.take(i as int));
            }
            match al_lookup_idx(&self.levels[i], name) {
                Some(j) => {
                    return Some(&self.levels[i][j].1);
                },
                None => {},
            }
        }
        proof {
            assert(whole.take(0) =~= Seq::<Seq<(String, V)>>::empty());
        }
        None
    }

    /// Search the innermost layer only.
    pub fn find_top(&self, name: &String) -> (r: Option<&V>)
        requires
            self.view_levels().len() >= 1,
        ensures
            match r {
                Some(v) => al_find(self.view_levels().last(), name@) == Some(*v),
                None => al_find(self.view_levels().last(), name@) is None,
            },
    {
        let i = self.levels.len() - 1;
        match al_lookup_idx(&self.levels[i], name) {
            Some(j) => Some(&self.levels[i][j].1),
            None => None,
        }
    }

    /// Search the outermost layer only.
    pub fn find_global(&self, name: &String) -> (r: Option<&V>)
        requires
            self.view_levels().len() >= 1,
        ensures
            match r {
                Some(v) => al_find(self.view_levels()[0], name@) == Some(*v),
                None => al_find(self.view_levels()[0], name@) is None,
            },
    {
        match al_lookup_idx(&self.levels[0], name) {
            Some(j) => Some(&self.levels[0][j].1),
            None => None,
        }
    }

    /// Bind a name in the innermost layer; a name already bound there is
    /// refused and nothing changes.
    pub fn put(&mut self, name: String, value: V) -> (r: Result<(), ()>)
        requires
            old(self).view_levels().len() >= 1,
        ensures
            match r {
                Ok(()) => {
                    &&& !al_has(old(self).view_levels().last(), name@)
                    &&& final(self).view_levels() == old(self).view_levels().update(
                        old(self).view_levels().len() - 1,
                        old(self).view_levels().last().push((name, value)),
                    )
                },
                Err(()) => al_has(old(self).view_levels().last(), name@) && *final(self) == *old(
                    self,
                ),
            },
    {
        let i = self.levels.len() - 1;
        match al_lookup_idx(&self.levels[i], &name) {
            Some(_) => Err(()),
            None => {
                let level = &mut self.levels[i];
                level.push((name, value));
                proof {
                    assert(self.view_levels() =~= old(self).view_levels().update(
                        old(self).view_levels().len() - 1,
                        old(self).view_levels().last().push((name, value)),
                    ));
                }
                Ok(())
            },
        }
    }

    /// Bind a name in the outermost layer; a name already bound there is
    /// refused and nothing changes.
    pub fn put_global(&mut self, name: String, value: V) -> (r: Result<(), ()>)
        requires
            old(self).view_levels().len() >= 1,
        ensures
            match r {
                Ok(()) => {
                    &&& !al_has(old(self).view_levels()[0], name@)
                    &&& final(self).view_levels() == old(self).view_levels().update(
                        0,
                        old(self).view_levels()[0].push((name, value)),
                    )
                },
                Err(()) => al_has(old(self).view_levels()[0], name@) && *final(self) == *old(
                    self,
                ),
            },
    {
        match al_lookup_idx(&self.levels[0], &name) {
            Some(_) => Err(()),
            None => {
                let level = &mut self.levels[0];
                level.push((name, value));
                proof {
                    assert(self.view_levels() =~= old(self).view_levels().update(
                        0,
                        old(self).view_levels()[0].push((name, value)),
                    ));
                }
                Ok(())
            },
        }
    }
}

/// A label's true identity: its name qualified by the scope tag of the
/// macro invocation that declared it (tag zero for global labels).
#[derive(Debug)]
pub struct MetaId {
    pub id: String,
    pub param: ParamType,
}

impl MetaId {
    /// The identity as a mathematical value.
    pub open spec fn key(self) -> (Seq<char>, ParamType) {
        (self.id@, self.param)
    }

    pub fn new(id: String, param: ParamType) -> (r: Self)
        ensures
            r.id == id,
            r.param == param,
    {
        MetaId { id, param }
    }

    pub fn id(&self) -> (r: &String)
        ensures
            r == self.id,
    {
        &self.id
    }

    pub fn param(&self) -> (r: ParamType)
        ensures
            r == self.param,
    {
        self.param
    }

    /// Whether two identities are the same: same name and same scope tag.
    pub fn eq_id(&self, other: &Self) -> (r: bool)
        ensures
            r == (self.key() == other.key()),
    {
        self.id == other.id && self.param == other.param
    }

    /// An identical copy.
    pub fn duplicate(&self) -> (r: Self)
        ensures
            r == *self,
    {
        MetaId { id: self.id.clone(), param: self.param }
    }
}

/// One scope-qualified instruction of the expanded program.
pub enum Meta2 {
    Lab(MetaId, LexPos),
    Zer(CellType),
    Inc(CellType),
    Out(CellType),
    Mov(CellType, CellType),
    Jmp(CellType, CellType, MetaId, LexPos),
}

pub type CodeMeta2 = Vec<Meta2>;

/// What an actual macro argument is bound to: a resolved register slot or
/// a label identity.
pub enum Meta2Arg {
    Reg(CellType),
    Lab(MetaId),
}

/// An identical copy of a bound argument.
pub fn clone_meta2_arg(a: &Meta2Arg) -> (r: Meta2Arg)
    ensures
        r == *a,
{
    match a {
        Meta2Arg::Reg(c) => Meta2Arg::Reg(*c),
        Meta2Arg::Lab(id) => Meta2Arg::Lab(id.duplicate()),
    }
}

/// The scope-tag zero that qualifies globally declared labels.
pub const PARAM_GLOBAL: ParamType = 0;

/// The scope environment: the three layered namespaces, the register-slot
/// allocator with its free list, and the scope-tag counter.
pub struct Env {
    pub next_reg: CellType,
    pub free_regs: Vec<CellType>,
    pub next_param: ParamType,
    pub macro_space: ViewSpace<MacroData>,
    pub reg_space: ViewSpace<CellType>,
    pub replacements_space: ViewSpace<Meta2Arg>,
}

/// Whether a slot is bound under any name in any open layer.
pub open spec fn slot_bound(levels: Seq<Seq<(String, CellType)>>, s: CellType) -> bool {
    exists|i: int, j: int|
        0 <= i < levels.len() && 0 <= j < levels[i].len() && (#[trigger] levels[i][j]).1 == s
}

/// What a register reference resolves to under the three lookup modes:
/// local with enclosing-scope search scans all layers innermost-first, a
/// plain local reference consults the innermost layer only, and a
/// non-local one consults the outermost layer only.
pub open spec fn reg_lookup(env: Env, name: Seq<char>, is_local: bool, nls: bool) -> Option<
    CellType,
> {
    if is_local && nls {
        vs_find(env.reg_levels(), name)
    } else if is_local {
        al_find(env.reg_levels().last(), name)
    } else {
        al_find(env.reg_levels()[0], name)
    }
}

/// What a register namespace lookup and allocation leaves behind.  A hit
/// returns the bound slot and changes nothing.  A miss hands out the head
/// of the free list, or a never-used slot when the free list is empty, and
/// binds it — in the innermost layer if local, in the outermost if not; it
/// fails, changing nothing, only when every slot number is in use.
pub open spec fn get_reg_post(
    pre: Env,
    post: Env,
    name: String,
    is_local: bool,
    nls: bool,
    r: Result<CellType, ()>,
) -> bool {
    match reg_lookup(pre, name@, is_local, nls) {
        Some(s) => r == Ok::<CellType, ()>(s) && post == pre,
        None => {
            if pre.free_regs@.len() == 0 && pre.next_reg == CellType::MAX {
                r is Err && post == pre
            } else {
                &&& r is Ok
                &&& !slot_bound(pre.reg_levels(), r->Ok_0)
                &&& (if pre.free_regs@.len() > 0 {
                    r->Ok_0 == pre.free_regs@[0] && post.free_regs@ == pre.free_regs@.drop_first()
                        && post.next_reg == pre.next_reg
                } else {
                    r->Ok_0 == pre.next_reg && post.free_regs@ == pre.free_regs@ && post.next_reg
                        == pre.next_reg + 1
                })
                &&& post.reg_levels() == pre.reg_levels().update(
                    if is_local {
                        pre.reg_levels().len() - 1
                    } else {
                        0int
                    },
                    pre.reg_levels()[if is_local {
                        pre.reg_levels().len() - 1
                    } else {
                        0int
                    }].push((name, r->Ok_0)),
                )
                &&& reg_lookup(post, name@, is_local, nls) == Some(r->Ok_0)
            }
        },
    }
}

/// A name the innermost-first search misses is bound in no layer at all.
pub proof fn lemma_vs_find_none<V>(levels: Seq<Seq<(String, V)>>, name: Seq<char>)
    requires
        vs_find(levels, name) is None,
    ensures
        forall|i: int| 0 <= i < levels.len() ==> al_find(#[trigger] levels[i], name) is None,
    decreases levels.len(),
{
    if levels.len() > 0 {
        lemma_vs_find_none(levels.drop_last(), name);
        assert forall|i: int| 0 <= i < levels.len() implies al_find(
            #[trigger] levels[i],
            name,
        ) is None by {
            if i < levels.len() - 1 {
                assert(levels.drop_last()[i] == levels[i]);
            } else {
                assert(levels[i] == levels.last());
            }
        }
    }
}

impl Env {
    /// The register layers, innermost last.
    pub open spec fn reg_levels(self) -> Seq<Seq<(String, CellType)>> {
        self.reg_space.view_levels()
    }

    /// Structural invariant.  Each namespace has at least its global
    /// layer.  Every bound or free slot is below the allocation counter;
    /// no slot is bound twice, is free twice, or is both bound and free —
    /// so a slot handed out on a lookup miss is genuinely fresh.
    pub open spec fn wf(self) -> bool {
        &&& self.reg_levels().len() >= 1
        &&& self.macro_space.view_levels().len() >= 1
        &&& self.replacements_space.view_levels().len() >= 1
        &&& forall|i: int, j: int|
            0 <= i < self.reg_levels().len() && 0 <= j < self.reg_levels()[i].len() ==> (
            #[trigger] self.reg_levels()[i][j]).1 < self.next_reg
        &&& forall|k: int|
            0 <= k < self.free_regs@.len() ==> (#[trigger] self.free_regs@[k]) < self.next_reg
        &&& forall|i: int, j: int, k: int|
            0 <= i < self.reg_levels().len() && 0 <= j < self.reg_levels()[i].len() && 0 <= k
                < self.free_regs@.len() ==> (#[trigger] self.reg_levels()[i][j]).1 != (
            #[trigger] self.free_regs@[k])
        &&& forall|k1: int, k2: int|
            0 <= k1 < k2 < self.free_regs@.len() ==> (#[trigger] self.free_regs@[k1]) != (
            #[trigger] self.free_regs@[k2])
        &&& forall|i1: int, j1: int, i2: int, j2: int|
            0 <= i1 < self.reg_levels().len() && 0 <= j1 < self.reg_levels()[i1].len() && 0 <= i2
                < self.reg_levels().len() && 0 <= j2 < self.reg_levels()[i2].len() && !(i1 == i2
                && j1 == j2) ==> (#[trigger] self.reg_levels()[i1][j1]).1 != (
            #[trigger] self.reg_levels()[i2][j2]).1
    }

    /// A fresh environment: the given macro table as the global macro
    /// layer, an empty global register layer, an empty global
    /// substitution layer, and no slots handed out.
    pub fn new(global_macros: Vec<(String, MacroData)>) -> (r: Self)
        ensures
            r.wf(),
            r.next_reg == 0,
            r.next_param == 0,
            r.free_regs@ == Seq::<CellType>::empty(),
            r.macro_space.view_levels() == seq![global_macros@],
            r.reg_levels() == seq![Seq::<(String, CellType)>::empty()],
            r.replacements_space.view_levels() == seq![Seq::<(String, Meta2Arg)>::empty()],
    {
        let mut macro_space: ViewSpace<MacroData> = ViewSpace::new();
        let mut reg_space: ViewSpace<CellType> = ViewSpace::new();
        let mut repl_space: ViewSpace<Meta2Arg> = ViewSpace::new();

        macro_space.push_from(global_macros);
        reg_space.push_level();
        repl_space.push_level();

        let r = Env {
            next_reg: 0,
            free_regs: Vec::new(),
            next_param: 0,
            macro_space,
            reg_space,
            replacements_space: repl_space,
        };
        proof {
            assert(r.macro_space.view_levels() =~= seq![global_macros@]);
            assert(r.reg_levels() =~= seq![Seq::<(String, CellType)>::empty()]);
            assert(r.replacements_space.view_levels() =~= seq![
                Seq::<(String, Meta2Arg)>::empty(),
            ]);
            assert(r.free_regs@ =~= Seq::<CellType>::empty());
        }
        r
    }

    /// Resolve a register reference under the given mode, allocating a
    /// fresh slot on a miss.  A hit leaves the environment untouched; a
    /// miss binds the name — in the innermost layer if local, in the
    /// outermost if not — to the next free-listed slot, or to a
    /// never-used one when the free list is empty.
    pub fn get_reg(&mut self, name: String, is_local: bool, non_local_search: bool) -> (r: Result<
        CellType,
        (),
    >)
        requires
            old(self).wf(),
        ensures
            final(self).wf(),
            final(self).macro_space == old(self).macro_space,
            final(self).replacements_space == old(self).replacements_space,
            final(self).next_param == old(self).next_param,
            final(self).reg_levels().len() == old(self).reg_levels().len(),
            get_reg_post(*old(self), *final(self), name, is_local, non_local_search, r),
    {
        if is_local {
            if non_local_search {
                if let Some(found) = self.reg_space.find(&name) {
                    return Ok(*found);
                }
            } else {
                if let Some(found) = self.reg_space.find_top(&name) {
                    return Ok(*found);
                }
            }
        } else {
            if let Some(found) = self.reg_space.find_global(&name) {
                return Ok(*found);
            }
        }

        proof {
            if is_local && non_local_search {
                lemma_vs_find_none(old(self).reg_levels(), name@);
            }
        }

        let slot: CellType;
        if self.free_regs.len() > 0 {
            slot = self.free_regs.remove(0);
            proof {
                assert(self.free_regs@ =~= old(self).free_regs@.drop_first());
            }
        } else {
            if self.next_reg == CellType::MAX {
                return Err(());
            }
            slot = self.next_reg;
            self.next_reg = self.next_reg + 1;
        }

        proof {
            assert forall|i: int, j: int|
                0 <= i < old(self).reg_levels().len() && 0 <= j < old(
                    self,
                ).reg_levels()[i].len() implies (#[trigger] old(self).reg_levels()[i][j]).1
                != slot by {
                if old(self).free_regs@.len() > 0 {
                    assert(old(self).reg_levels()[i][j].1 != old(self).free_regs@[0]);
                }
            }
            assert(!slot_bound(old(self).reg_levels(), slot));
        }

        let ghost mid = *self;
        let res = if is_local {
            self.reg_space.put(name, slot)
        } else {
            self.reg_space.put_global(name, slot)
        };
        match res {
            Ok(()) => {},
            Err(()) => {
                proof {
                    assert(false);
                }
            },
        }
        proof {
            let oldl = old(self).reg_levels();
            let newl = self.reg_levels();
            let li: int = if is_local {
                oldl.len() - 1
            } else {
                0int
            };
            assert(newl == oldl.update(li, oldl[li].push((name, slot))));
            lemma_al_find_push(oldl[li], (name, slot), name@);
            if is_local && non_local_search {
                assert(newl.last() == oldl.last().push((name, slot)));
                assert(al_find(newl.last(), name@) == Some(slot));
            }
            // every entry of the new layers is an old entry or the new binding
            assert forall|i: int, j: int|
                0 <= i < newl.len() && 0 <= j < newl[i].len() implies ((i == li && j == newl[i].len()
                - 1 && (#[trigger] newl[i][j]) == (name, slot)) || (0 <= j < oldl[i].len()
                && newl[i][j] == oldl[i][j])) by {
                if i != li {
                    assert(newl[i] == oldl[i]);
                } else {
                    assert(newl[i] == oldl[i].push((name, slot)));
                }
            }
            assert(self.wf());
        }
        Ok(slot)
    }

    /// Mint the next scope tag; each macro invocation gets its own.
    pub fn next_param(&mut self) -> (r: ParamType)
        requires
            old(self).next_param < ParamType::MAX,
    ensures
            r == old(self).next_param + 1,
            *final(self) == (Env { next_param: r, ..*old(self) }),
    {
        self.next_param = self.next_param + 1;
        return self.next_param;
    }

    /// Innermost-first macro lookup: macro arguments shadow the global
    /// macro table.
    pub fn get_macro(&self, name: &String) -> (r: Option<&MacroData>)
        ensures
            match r {
                Some(d) => vs_find(self.macro_space.view_levels(), name@) == Some(*d),
                None => vs_find(self.macro_space.view_levels(), name@) is None,
            },
    {
        self.macro_space.find(name)
    }

    /// Innermost-first substitution lookup, resolving identifiers bound by
    /// enclosing macro parameters.
    pub fn replace(&self, id: &String) -> (r: Option<&Meta2Arg>)
        ensures
            match r {
                Some(a) => vs_find(self.replacements_space.view_levels(), id@) == Some(*a),
                None => vs_find(self.replacements_space.view_levels(), id@) is None,
            },
    {
        self.replacements_space.find(id)
    }

    /// Enter a macro invocation: one new layer in each namespace — an
    /// empty register layer, and the invocation's macro and substitution
    /// bindings.
    pub fn push_level(
        &mut self,
        macros: Vec<(String, MacroData)>,
        replacements: Vec<(String, Meta2Arg)>,
    )
        requires
            old(self).wf(),
        ensures
            final(self).wf(),
            final(self).next_reg == old(self).next_reg,
            final(self).next_param == old(self).next_param,
            final(self).free_regs == old(self).free_regs,
            final(self).reg_levels() == old(self).reg_levels().push(
                Seq::<(String, CellType)>::empty(),
            ),
            final(self).macro_space.view_levels() == old(self).macro_space.view_levels().push(
                macros@,
            ),
            final(self).replacements_space.view_levels() == old(
                self,
            ).replacements_space.view_levels().push(replacements@),
    {
        self.reg_space.push_level();
        self.macro_space.push_from(macros);
        self.replacements_space.push_from(replacements);
        proof {
            let oldl = old(self).reg_levels();
            let newl = self.reg_levels();
            assert forall|i: int, j: int|
                #![trigger newl[i][j]]
                0 <= i < newl.len() && 0 <= j < newl[i].len() implies 0 <= i < oldl.len()
                && newl[i][j] == oldl[i][j] by {
                assert(newl.last().len() == 0);
                assert(i < oldl.len());
                assert(newl[i] == oldl[i]);
            }
            assert(self.wf());
        }
    }

    /// Leave a macro invocation: pop the innermost layer of each
    /// namespace, and return every register slot the popped register layer
    /// owned to the free list, for reuse by later, unrelated scopes.
    pub fn pop_level(&mut self)
        requires
            old(self).wf(),
            old(self).reg_levels().len() >= 2,
            old(self).macro_space.view_levels().len() >= 2,
            old(self).replacements_space.view_levels().len() >= 2,
        ensures
            final(self).wf(),
            final(self).next_reg == old(self).next_reg,
            final(self).next_param == old(self).next_param,
            final(self).reg_levels() == old(self).reg_levels().drop_last(),
            final(self).macro_space.view_levels() == old(
                self,
            ).macro_space.view_levels().drop_last(),
            final(self).replacements_space.view_levels() == old(
                self,
            ).replacements_space.view_levels().drop_last(),
            final(self).free_regs@ == old(self).free_regs@ + old(
                self,
            ).reg_levels().last().map_values(|e: (String, CellType)| e.1),
    {
        let popped = self.reg_space.pop_level();
        let ghost popped_slots = popped@.map_values(|e: (String, CellType)| e.1);
        let mut i: usize = 0;
        while i < popped.len()
            invariant
                i <= popped@.len(),
                popped_slots == popped@.map_values(|e: (String, CellType)| e.1),
                self.free_regs@ == old(self).free_regs@ + popped_slots.take(i as int),
                self.reg_space.view_levels() == old(self).reg_levels().drop_last(),
                self.macro_space == old(self).macro_space,
                self.replacements_space == old(self).replacements_space,
                self.next_reg == old(self).next_reg,
                self.next_param == old(self).next_param,
            decreases popped@.len() - i,
        {
            self.free_regs.push(popped[i].1);
            i += 1;
            proof {
                assert(self.free_regs@ =~= old(self).free_regs@ + popped_slots.take(i as int));
            }
        }
        proof {
            assert(popped_slots.take(popped@.len() as int) =~= popped_slots);
        }
        let m = self.macro_space.pop_level();
        let s = self.replacements_space.pop_level();
        proof {
            let oldl = old(self).reg_levels();
            let newl = self.reg_levels();
            let last: int = oldl.len() - 1;
            assert(newl == oldl.drop_last());
            assert forall|i2: int, j2: int|
                0 <= i2 < newl.len() && 0 <= j2 < newl[i2].len() implies #[trigger] newl[i2][j2]
                == oldl[i2][j2] by {
                assert(newl[i2] == oldl[i2]);
            }
            let newfree = self.free_regs@;
            let oldfree = old(self).free_regs@;
            assert forall|k: int| 0 <= k < newfree.len() implies (#[trigger] newfree[k]) < self.next_reg by {
                if k >= oldfree.len() {
                    assert(newfree[k] == oldl[last][k - oldfree.len()].1);
                }
            }
            assert forall|k1: int, k2: int|
                0 <= k1 < k2 < newfree.len() implies (#[trigger] newfree[k1]) != (
                #[trigger] newfree[k2]) by {
                if k1 >= oldfree.len() {
                    assert(newfree[k1] == oldl[last][k1 - oldfree.len()].1);
                    assert(newfree[k2] == oldl[last][k2 - oldfree.len()].1);
                } else if k2 >= oldfree.len() {
                    assert(newfree[k1] == oldfree[k1]);
                    assert(newfree[k2] == oldl[last][k2 - oldfree.len()].1);
                } else {
                    assert(newfree[k1] == oldfree[k1]);
                    assert(newfree[k2] == oldfree[k2]);
                }
            }
            assert forall|i2: int, j2: int, k: int|
                0 <= i2 < newl.len() && 0 <= j2 < newl[i2].len() && 0 <= k
                    < newfree.len() implies (#[trigger] newl[i2][j2]).1 != (
                #[trigger] newfree[k]) by {
                assert(newl[i2][j2] == oldl[i2][j2]);
                if k >= oldfree.len() {
                    assert(newfree[k] == oldl[last][k - oldfree.len()].1);
                    assert(i2 != last);
                } else {
                    assert(newfree[k] == oldfree[k]);
                }
            }
            assert(self.wf());
        }
    }
}

/// What every register-resolution step leaves untouched: the macro and
/// substitution namespaces, the scope-tag counter, and the number of open
/// register layers.
pub open spec fn reg_frame(pre: Env, post: Env) -> bool {
    &&& post.macro_space == pre.macro_space
    &&& post.replacements_space == pre.replacements_space
    &&& post.next_param == pre.next_param
    &&& post.reg_levels().len() == pre.reg_levels().len()
}

/// What expansion guarantees on every path, error paths included: no
/// namespace loses a layer and the scope-tag counter only grows.
pub open spec fn expand_grow(pre: Env, post: Env) -> bool {
    &&& post.reg_levels().len() >= pre.reg_levels().len()
    &&& post.macro_space.view_levels().len() >= pre.macro_space.view_levels().len()
    &&& post.replacements_space.view_levels().len() >= pre.replacements_space.view_levels().len()
    &&& post.next_param >= pre.next_param
}

/// On success expansion restores the namespaces to their entry depth.
pub open spec fn expand_balanced(pre: Env, post: Env) -> bool {
    &&& post.reg_levels().len() == pre.reg_levels().len()
    &&& post.macro_space.view_levels().len() == pre.macro_space.view_levels().len()
    &&& post.replacements_space.view_levels().len() == pre.replacements_space.view_levels().len()
}

/// Hygiene of emitted labels: every label declaration in the code carries
/// the global tag, or a tag minted strictly within `(lo, hi]`.
pub open spec fn lab_tags_in(code: Seq<Meta2>, lo: ParamType, hi: ParamType) -> bool {
    forall|k: int|
        0 <= k < code.len() ==> ((#[trigger] code[k]) matches Meta2::Lab(id, _) ==> id.param
            == PARAM_GLOBAL || (lo < id.param && id.param <= hi))
}

/// What resolving one actual argument does: a register reference resolves
/// through the register namespace (possibly allocating); a label reference
/// becomes an identity tagged with the caller's scope tag, or the global
/// tag if non-local; an identifier resolves through the substitution
/// layers; a code block is refused here.
pub open spec fn arg_to_meta_post(
    pre: Env,
    post: Env,
    param: ParamType,
    arg: MetaArg,
    r: Result<(Meta2Arg, LexPos), CompileError>,
) -> bool {
    match arg {
        MetaArg::Reg(name, l, nls, pos) => match r {
            Ok(p) => p.1 == pos && p.0 is Reg && get_reg_post(
                pre,
                post,
                name,
                l,
                nls,
                Ok(p.0->Reg_0),
            ),
            Err(e) => e.kind == ErrorKind::RegistersExhausted && e.pos == pos && get_reg_post(
                pre,
                post,
                name,
                l,
                nls,
                Err(()),
            ),
        },
        MetaArg::Lab(name, l, pos) => post == pre && r == Ok::<(Meta2Arg, LexPos), CompileError>(
            (
                Meta2Arg::Lab(
                    MetaId {
                        id: name,
                        param: if l {
                            param
                        } else {
                            PARAM_GLOBAL
                        },
                    },
                ),
                pos,
            ),
        ),
        MetaArg::Id(name, pos) => post == pre && match vs_find(
            pre.replacements_space.view_levels(),
            name@,
        ) {
            Some(v) => r == Ok::<(Meta2Arg, LexPos), CompileError>((v, pos)),
            None => r matches Err(e) && e.kind == ErrorKind::CannotExpand(name) && e.pos == pos,
        },
        MetaArg::Code(_, _, pos) => post == pre && (r matches Err(e) && e.kind
            == ErrorKind::ExpectedNonMacroArg && e.pos == pos),
    }
}

/// The failure for a missing argument.
pub fn expected_arg(pos: LexPos) -> (r: CompileError)
    ensures
        r == (CompileError { kind: ErrorKind::ExpectedArg, pos }),
{
    CompileError::new(ErrorKind::ExpectedArg, pos)
}

/// The failure for an argument that should have been a register.
pub fn expected_register(pos: LexPos) -> (r: CompileError)
    ensures
        r == (CompileError { kind: ErrorKind::ExpectedRegister, pos }),
{
    CompileError::new(ErrorKind::ExpectedRegister, pos)
}

/// The failure for an argument that should have been a label.
pub fn expected_label(pos: LexPos) -> (r: CompileError)
    ensures
        r == (CompileError { kind: ErrorKind::ExpectedLabel, pos }),
{
    CompileError::new(ErrorKind::ExpectedLabel, pos)
}

/// Emit a label declaration qualified with the given scope tag.
pub fn process_label(name: String, deep_level: ParamType, pos: LexPos) -> (r: Meta2)
    ensures
        r == Meta2::Lab(MetaId { id: name, param: deep_level }, pos),
{
    Meta2::Lab(MetaId::new(name, deep_level), pos)
}

/// Resolve one actual argument under the caller's scope tag.
pub fn arg_to_meta(env: &mut Env, param: ParamType, meta: &MetaArg) -> (r: Result<
    (Meta2Arg, LexPos),
    CompileError,
>)
    requires
        old(env).wf(),
    ensures
        final(env).wf(),
        reg_frame(*old(env), *final(env)),
        arg_to_meta_post(*old(env), *final(env), param, *meta, r),
{
    match meta {
        MetaArg::Reg(name, is_local, nls, pos) => match env.get_reg(name.clone(), *is_local, *nls) {
            Ok(slot) => Ok((Meta2Arg::Reg(slot), *pos)),
            Err(()) => Err(CompileError::new(ErrorKind::RegistersExhausted, *pos)),
        },
        MetaArg::Lab(name, is_local, pos) => Ok(
            (
                Meta2Arg::Lab(
                    MetaId::new(
                        name.clone(),
                        if *is_local {
                            param
                        } else {
                            PARAM_GLOBAL
                        },
                    ),
                ),
                *pos,
            ),
        ),
        MetaArg::Id(name, pos) => {
            let found = match env.replace(name) {
                Some(v) => Some(clone_meta2_arg(v)),
                None => None,
            };
            match found {
                Some(v) => Ok((v, *pos)),
                None => Err(CompileError::new(ErrorKind::CannotExpand(name.clone()), *pos)),
            }
        },
        MetaArg::Code(_, _, pos) => Err(CompileError::new(ErrorKind::ExpectedNonMacroArg, *pos)),
    }
}

/// The register slot an argument resolution yields, or the failure: a
/// label where a register is required is refused at the argument's
/// position.
pub open spec fn reg_arg_outcome(m: Result<(Meta2Arg, LexPos), CompileError>) -> Result<
    CellType,
    CompileError,
> {
    match m {
        Ok(p) => match p.0 {
            Meta2Arg::Reg(c) => Ok(c),
            Meta2Arg::Lab(_) => Err(CompileError { kind: ErrorKind::ExpectedRegister, pos: p.1 }),
        },
        Err(e) => Err(e),
    }
}

/// The label identity an argument resolution yields, or the failure.
pub open spec fn lab_arg_outcome(m: Result<(Meta2Arg, LexPos), CompileError>) -> Result<
    MetaId,
    CompileError,
> {
    match m {
        Ok(p) => match p.0 {
            Meta2Arg::Lab(id) => Ok(id),
            Meta2Arg::Reg(_) => Err(CompileError { kind: ErrorKind::ExpectedLabel, pos: p.1 }),
        },
        Err(e) => Err(e),
    }
}

/// Taking one argument and resolving it to a register slot: with no
/// argument left the operation's position reports a missing argument and
/// nothing changes; otherwise the argument at `i0` is resolved and the
/// cursor advances past it.
pub open spec fn reg_arg_rel(
    pre: Env,
    post: Env,
    param: ParamType,
    args: Seq<MetaArg>,
    i0: int,
    i1: int,
    pos: LexPos,
    rc: Result<CellType, CompileError>,
) -> bool {
    if i0 >= args.len() {
        post == pre && i1 == i0 && rc == Err::<CellType, CompileError>(
            CompileError { kind: ErrorKind::ExpectedArg, pos },
        )
    } else {
        i1 == i0 + 1 && exists|m: Result<(Meta2Arg, LexPos), CompileError>|
            #[trigger] arg_to_meta_post(pre, post, param, args[i0], m) && rc == reg_arg_outcome(m)
    }
}

/// Taking one argument and resolving it to a label identity.
pub open spec fn lab_arg_rel(
    pre: Env,
    post: Env,
    param: ParamType,
    args: Seq<MetaArg>,
    i0: int,
    i1: int,
    pos: LexPos,
    rc: Result<MetaId, CompileError>,
) -> bool {
    if i0 >= args.len() {
        post == pre && i1 == i0 && rc == Err::<MetaId, CompileError>(
            CompileError { kind: ErrorKind::ExpectedArg, pos },
        )
    } else {
        i1 == i0 + 1 && exists|m: Result<(Meta2Arg, LexPos), CompileError>|
            #[trigger] arg_to_meta_post(pre, post, param, args[i0], m) && rc == lab_arg_outcome(m)
    }
}

/// What `zer` makes of its argument list.
pub open spec fn process_zer_rel(
    pre: Env,
    post: Env,
    param: ParamType,
    args: Seq<MetaArg>,
    i0: int,
    i1: int,
    pos: LexPos,
    r: Result<Meta2, CompileError>,
) -> bool {
    exists|rc: Result<CellType, CompileError>|
        #[trigger] reg_arg_rel(pre, post, param, args, i0, i1, pos, rc) && r == (match rc {
            Ok(c) => Ok::<Meta2, CompileError>(Meta2::Zer(c)),
            Err(e) => Err::<Meta2, CompileError>(e),
        })
}

/// What `inc` makes of its argument list.
pub open spec fn process_inc_rel(
    pre: Env,
    post: Env,
    param: ParamType,
    args: Seq<MetaArg>,
    i0: int,
    i1: int,
    pos: LexPos,
    r: Result<Meta2, CompileError>,
) -> bool {
    exists|rc: Result<CellType, CompileError>|
        #[trigger] reg_arg_rel(pre, post, param, args, i0, i1, pos, rc) && r == (match rc {
            Ok(c) => Ok::<Meta2, CompileError>(Meta2::Inc(c)),
            Err(e) => Err::<Meta2, CompileError>(e),
        })
}

/// What `out` makes of its argument list.
pub open spec fn process_out_rel(
    pre: Env,
    post: Env,
    param: ParamType,
    args: Seq<MetaArg>,
    i0: int,
    i1: int,
    pos: LexPos,
    r: Result<Meta2, CompileError>,
) -> bool {
    exists|rc: Result<CellType, CompileError>|
        #[trigger] reg_arg_rel(pre, post, param, args, i0, i1, pos, rc) && r == (match rc {
            Ok(c) => Ok::<Meta2, CompileError>(Meta2::Out(c)),
            Err(e) => Err::<Meta2, CompileError>(e),
        })
}

/// What `mov` makes of its argument list: two register arguments in
/// order, with the first failure aborting at its own position.
pub open spec fn process_mov_rel(
    pre: Env,
    post: Env,
    param: ParamType,
    args: Seq<MetaArg>,
    i0: int,
    i1: int,
    pos: LexPos,
    r: Result<Meta2, CompileError>,
) -> bool {
    exists|mid: Env, im: int, rc1: Result<CellType, CompileError>|
        #[trigger] reg_arg_rel(pre, mid, param, args, i0, im, pos, rc1) && match rc1 {
            Err(e) => post == mid && i1 == im && r == Err::<Meta2, CompileError>(e),
            Ok(c1) => exists|rc2: Result<CellType, CompileError>|
                #[trigger] reg_arg_rel(mid, post, param, args, im, i1, pos, rc2) && r == (
                match rc2 {
                    Ok(c2) => Ok::<Meta2, CompileError>(Meta2::Mov(c1, c2)),
                    Err(e) => Err::<Meta2, CompileError>(e),
                }),
        }
}

/// What `jmp` makes of its argument list: two register arguments and a
/// label argument, in order, the first failure aborting at its position.
pub open spec fn process_jmp_rel(
    pre: Env,
    post: Env,
    param: ParamType,
    args: Seq<MetaArg>,
    i0: int,
    i1: int,
    pos: LexPos,
    r: Result<Meta2, CompileError>,
) -> bool {
    exists|mid1: Env, im1: int, rc1: Result<CellType, CompileError>|
        #[trigger] reg_arg_rel(pre, mid1, param, args, i0, im1, pos, rc1) && match rc1 {
            Err(e) => post == mid1 && i1 == im1 && r == Err::<Meta2, CompileError>(e),
            Ok(c1) => exists|mid2: Env, im2: int, rc2: Result<CellType, CompileError>|
                #[trigger] reg_arg_rel(mid1, mid2, param, args, im1, im2, pos, rc2) && match rc2 {
                    Err(e) => post == mid2 && i1 == im2 && r == Err::<Meta2, CompileError>(e),
                    Ok(c2) => exists|rl: Result<MetaId, CompileError>|
                        #[trigger] lab_arg_rel(mid2, post, param, args, im2, i1, pos, rl) && r == (
                        match rl {
                            Ok(l) => Ok::<Meta2, CompileError>(Meta2::Jmp(c1, c2, l, pos)),
                            Err(e) => Err::<Meta2, CompileError>(e),
                        }),
                },
        }
}

/// Take the next argument and resolve it to a register slot.
fn next_reg_arg(
    env: &mut Env,
    param: ParamType,
    args: &Vec<MetaArg>,
    idx: &mut usize,
    pos: LexPos,
) -> (r: Result<CellType, CompileError>)
    requires
        old(env).wf(),
        *old(idx) <= args@.len(),
    ensures
        final(env).wf(),
        reg_frame(*old(env), *final(env)),
        *old(idx) <= *final(idx) <= args@.len(),
        reg_arg_rel(
            *old(env),
            *final(env),
            param,
            args@,
            *old(idx) as int,
            *final(idx) as int,
            pos,
            r,
        ),
{
    if *idx >= args.len() {
        return Err(expected_arg(pos));
    }
    let a = &args[*idx];
    *idx = *idx + 1;
    let m = arg_to_meta(env, param, a);
    let ghost gm = m;
    let r = match m {
        Ok((Meta2Arg::Reg(c), _)) => Ok(c),
        Ok((Meta2Arg::Lab(_), p)) => Err(expected_register(p)),
        Err(e) => Err(e),
    };
    proof {
        assert(arg_to_meta_post(*old(env), *env, param, args@[*old(idx) as int], gm) && r
            == reg_arg_outcome(gm));
    }
    r
}

/// Take the next argument and resolve it to a label identity.
fn next_lab_arg(
    env: &mut Env,
    param: ParamType,
    args: &Vec<MetaArg>,
    idx: &mut usize,
    pos: LexPos,
) -> (r: Result<MetaId, CompileError>)
    requires
        old(env).wf(),
        *old(idx) <= args@.len(),
    ensures
        final(env).wf(),
        reg_frame(*old(env), *final(env)),
        *old(idx) <= *final(idx) <= args@.len(),
        lab_arg_rel(
            *old(env),
            *final(env),
            param,
            args@,
            *old(idx) as int,
            *final(idx) as int,
            pos,
            r,
        ),
{
    if *idx >= args.len() {
        return Err(expected_arg(pos));
    }
    let a = &args[*idx];
    *idx = *idx + 1;
    let m = arg_to_meta(env, param, a);
    let ghost gm = m;
    let r = match m {
        Ok((Meta2Arg::Lab(id), _)) => Ok(id),
        Ok((Meta2Arg::Reg(_), p)) => Err(expected_label(p)),
        Err(e) => Err(e),
    };
    proof {
        assert(arg_to_meta_post(*old(env), *env, param, args@[*old(idx) as int], gm) && r
            == lab_arg_outcome(gm));
    }
    r
}

/// `zer %r`: one register argument.
pub fn process_zer(
    env: &mut Env,
    param: ParamType,
    args: &Vec<MetaArg>,
    idx: &mut usize,
    pos: LexPos,
) -> (r: Result<Meta2, CompileError>)
    requires
        old(env).wf(),
        *old(idx) <= args@.len(),
    ensures
        final(env).wf(),
        reg_frame(*old(env), *final(env)),
        *old(idx) <= *final(idx) <= args@.len(),
        process_zer_rel(
            *old(env),
            *final(env),
            param,
            args@,
            *old(idx) as int,
            *final(idx) as int,
            pos,
            r,
        ),
{
    let rc = next_reg_arg(env, param, args, idx, pos);
    let ghost grc = rc;
    let r = match rc {
        Ok(c) => Ok(Meta2::Zer(c)),
        Err(e) => Err(e),
    };
    proof {
        assert(reg_arg_rel(
            *old(env),
            *env,
            param,
            args@,
            *old(idx) as int,
            *idx as int,
            pos,
            grc,
        ));
    }
    r
}

/// `inc %r`: one register argument.
pub fn process_inc(
    env: &mut Env,
    param: ParamType,
    args: &Vec<MetaArg>,
    idx: &mut usize,
    pos: LexPos,
) -> (r: Result<Meta2, CompileError>)
    requires
        old(env).wf(),
        *old(idx) <= args@.len(),
    ensures
        final(env).wf(),
        reg_frame(*old(env), *final(env)),
        *old(idx) <= *final(idx) <= args@.len(),
        process_inc_rel(
            *old(env),
            *final(env),
            param,
            args@,
            *old(idx) as int,
            *final(idx) as int,
            pos,
            r,
        ),
{
    let rc = next_reg_arg(env, param, args, idx, pos);
    let ghost grc = rc;
    let r = match rc {
        Ok(c) => Ok(Meta2::Inc(c)),
        Err(e) => Err(e),
    };
    proof {
        assert(reg_arg_rel(
            *old(env),
            *env,
            param,
            args@,
            *old(idx) as int,
            *idx as int,
            pos,
            grc,
        ));
    }
    r
}

/// `out %r`: one register argument.
pub fn process_out(
    env: &mut Env,
    param: ParamType,
    args: &Vec<MetaArg>,
    idx: &mut usize,
    pos: LexPos,
) -> (r: Result<Meta2, CompileError>)
    requires
        old(env).wf(),
        *old(idx) <= args@.len(),
    ensures
        final(env).wf(),
        reg_frame(*old(env), *final(env)),
        *old(idx) <= *final(idx) <= args@.len(),
        process_out_rel(
            *old(env),
            *final(env),
            param,
            args@,
            *old(idx) as int,
            *final(idx) as int,
            pos,
            r,
        ),
{
    let rc = next_reg_arg(env, param, args, idx, pos);
    let ghost grc = rc;
    let r = match rc {
        Ok(c) => Ok(Meta2::Out(c)),
        Err(e) => Err(e),
    };
    proof {
        assert(reg_arg_rel(
            *old(env),
            *env,
            param,
            args@,
            *old(idx) as int,
            *idx as int,
            pos,
            grc,
        ));
    }
    r
}

/// `mov %dst %src`: two register arguments.
pub fn process_mov(
    env: &mut Env,
    param: ParamType,
    args: &Vec<MetaArg>,
    idx: &mut usize,
    pos: LexPos,
) -> (r: Result<Meta2, CompileError>)
    requires
        old(env).wf(),
        *old(idx) <= args@.len(),
    ensures
        final(env).wf(),
        reg_frame(*old(env), *final(env)),
        *old(idx) <= *final(idx) <= args@.len(),
        process_mov_rel(
            *old(env),
            *final(env),
            param,
            args@,
            *old(idx) as int,
            *final(idx) as int,
            pos,
            r,
        ),
{
    let rc1 = next_reg_arg(env, param, args, idx, pos);
    let ghost grc1 = rc1;
    let ghost gmid = *env;
    let ghost gim = *idx as int;
    let c1 = match rc1 {
        Ok(c) => c,
        Err(e) => {
            proof {
                assert(reg_arg_rel(
                    *old(env),
                    gmid,
                    param,
                    args@,
                    *old(idx) as int,
                    gim,
                    pos,
                    grc1,
                ));
            }
            return Err(e);
        },
    };
    let rc2 = next_reg_arg(env, param, args, idx, pos);
    let ghost grc2 = rc2;
    let r = match rc2 {
        Ok(c2) => Ok(Meta2::Mov(c1, c2)),
        Err(e) => Err(e),
    };
    proof {
        assert(reg_arg_rel(*old(env), gmid, param, args@, *old(idx) as int, gim, pos, grc1));
        assert(reg_arg_rel(gmid, *env, param, args@, gim, *idx as int, pos, grc2));
    }
    r
}

/// `jmp %r1 %r2 @label`: two register arguments and a label argument.
pub fn process_jmp(
    env: &mut Env,
    param: ParamType,
    args: &Vec<MetaArg>,
    idx: &mut usize,
    pos: LexPos,
) -> (r: Result<Meta2, CompileError>)
    requires
        old(env).wf(),
        *old(idx) <= args@.len(),
    ensures
        final(env).wf(),
        reg_frame(*old(env), *final(env)),
        *old(idx) <= *final(idx) <= args@.len(),
        process_jmp_rel(
            *old(env),
            *final(env),
            param,
            args@,
            *old(idx) as int,
            *final(idx) as int,
            pos,
            r,
        ),
{
    let rc1 = next_reg_arg(env, param, args, idx, pos);
    let ghost grc1 = rc1;
    let ghost gmid1 = *env;
    let ghost gim1 = *idx as int;
    let c1 = match rc1 {
        Ok(c) => c,
        Err(e) => {
            proof {
                assert(reg_arg_rel(
                    *old(env),
                    gmid1,
                    param,
                    args@,
                    *old(idx) as int,
                    gim1,
                    pos,
                    grc1,
                ));
            }
            return Err(e);
        },
    };
    let rc2 = next_reg_arg(env, param, args, idx, pos);
    let ghost grc2 = rc2;
    let ghost gmid2 = *env;
    let ghost gim2 = *idx as int;
    let c2 = match rc2 {
        Ok(c) => c,
        Err(e) => {
            proof {
                assert(reg_arg_rel(
                    *old(env),
                    gmid1,
                    param,
                    args@,
                    *old(idx) as int,
                    gim1,
                    pos,
                    grc1,
                ));
                assert(reg_arg_rel(gmid1, gmid2, param, args@, gim1, gim2, pos, grc2));
            }
            return Err(e);
        },
    };
    let rl = next_lab_arg(env, param, args, idx, pos);
    let ghost grl = rl;
    let r = match rl {
        Ok(target) => Ok(Meta2::Jmp(c1, c2, target, pos)),
        Err(e) => Err(e),
    };
    proof {
        assert(reg_arg_rel(*old(env), gmid1, param, args@, *old(idx) as int, gim1, pos, grc1));
        assert(reg_arg_rel(gmid1, gmid2, param, args@, gim1, gim2, pos, grc2));
        assert(lab_arg_rel(gmid2, *env, param, args@, gim2, *idx as int, pos, grl));
    }
    r
}

/// An error at the first argument beyond an operation's arity: reported
/// at that argument's position, carrying its rendering.
pub open spec fn extra_arg_err(args: Seq<MetaArg>, k: int, e: CompileError) -> bool {
    &&& e.pos == meta_arg_pos(args[k])
    &&& (e.kind matches ErrorKind::ExtraArg(s) && s@ == meta_arg_str_spec(args[k]))
}

/// Entering a macro invocation: one new layer in each namespace — an
/// empty register layer, and the invocation's macro and substitution
/// bindings — with the counters and free list untouched.
pub open spec fn pushed_env(
    pre: Env,
    post: Env,
    macr: Seq<(String, MacroData)>,
    reps: Seq<(String, Meta2Arg)>,
) -> bool {
    &&& post.reg_levels() == pre.reg_levels().push(Seq::<(String, CellType)>::empty())
    &&& post.macro_space.view_levels() == pre.macro_space.view_levels().push(macr)
    &&& post.replacements_space.view_levels() == pre.replacements_space.view_levels().push(reps)
    &&& post.next_reg == pre.next_reg
    &&& post.next_param == pre.next_param
    &&& post.free_regs == pre.free_regs
}

/// Leaving a macro invocation: the innermost layer of each namespace is
/// popped and every register slot the popped register layer owned goes
/// back on the free list.
pub open spec fn popped_env(pre: Env, post: Env) -> bool {
    &&& post.reg_levels() == pre.reg_levels().drop_last()
    &&& post.macro_space.view_levels() == pre.macro_space.view_levels().drop_last()
    &&& post.replacements_space.view_levels() == pre.replacements_space.view_levels().drop_last()
    &&& post.next_reg == pre.next_reg
    &&& post.next_param == pre.next_param
    &&& post.free_regs@ == pre.free_regs@ + pre.reg_levels().last().map_values(
        |e: (String, CellType)| e.1,
    )
}

/// Binding one formal parameter to one actual argument.  A register
/// actual binds the slot resolved in the caller's scope; a label actual
/// binds the identity tagged with the caller's scope tag if local, the
/// global tag if not — locality is inherited contextually, not redefined;
/// a code block binds a nested macro definition; a bare identifier
/// forwards its substitution, or else a visible macro, and is refused
/// where it has neither.
pub open spec fn bind1_rel(
    pre: Env,
    post: Env,
    caller_param: ParamType,
    formal: String,
    arg: MetaArg,
    macr0: Seq<(String, MacroData)>,
    reps0: Seq<(String, Meta2Arg)>,
    macr1: Seq<(String, MacroData)>,
    reps1: Seq<(String, Meta2Arg)>,
    rb: Result<(), CompileError>,
) -> bool {
    match arg {
        MetaArg::Reg(n, l, nls, rpos) => exists|g: Result<CellType, ()>|
            #[trigger] get_reg_post(pre, post, n, l, nls, g) && match g {
                Ok(slot) => rb is Ok && macr1 == macr0 && reps1 == reps0.push(
                    (formal, Meta2Arg::Reg(slot)),
                ),
                Err(()) => (rb matches Err(e) && e.kind == ErrorKind::RegistersExhausted && e.pos
                    == rpos) && macr1 == macr0 && reps1 == reps0,
            },
        MetaArg::Lab(n, l, _) => post == pre && rb is Ok && macr1 == macr0 && reps1
            == reps0.push(
            (
                formal,
                Meta2Arg::Lab(
                    MetaId {
                        id: n,
                        param: if l {
                            caller_param
                        } else {
                            PARAM_GLOBAL
                        },
                    },
                ),
            ),
        ),
        MetaArg::Code(cids, ccode, _) => post == pre && rb is Ok && reps1 == reps0 && macr1.len()
            == macr0.len() + 1 && macr1.drop_last() == macr0 && macr1.last().0 == formal
            && macr1.last().1.0@ == cids@ && same_code(macr1.last().1.1@, ccode@),
        MetaArg::Id(n, ipos) => post == pre && match vs_find(
            pre.replacements_space.view_levels(),
            n@,
        ) {
            Some(v) => rb is Ok && macr1 == macr0 && reps1 == reps0.push((formal, v)),
            None => match vs_find(pre.macro_space.view_levels(), n@) {
                Some(d) => rb is Ok && reps1 == reps0 && macr1.len() == macr0.len() + 1
                    && macr1.drop_last() == macr0 && macr1.last().0 == formal && same_macro(
                    macr1.last().1,
                    d,
                ),
                None => (rb matches Err(e) && e.kind == ErrorKind::CannotExpand(n) && e.pos
                    == ipos) && macr1 == macr0 && reps1 == reps0,
            },
        },
    }
}

/// The witness of one binding step: the state after the earlier formals,
/// the cursor then, the bindings gathered so far, and how that prefix
/// ended.
pub ghost struct BindStepW {
    pub mid: Env,
    pub im: int,
    pub macr0: Seq<(String, MacroData)>,
    pub reps0: Seq<(String, Meta2Arg)>,
    pub rb0: Result<(), CompileError>,
}

impl BindStepW {
    /// The environment the step starts from.
    pub open spec fn env(self) -> Env {
        self.mid
    }
}

/// Binding each formal parameter, in order, to the next actual argument.
/// Running out of actuals is refused at the invocation's position; the
/// first failure stops the binding.
pub open spec fn bind_rel(
    pre: Env,
    post: Env,
    caller_param: ParamType,
    formals: Seq<String>,
    args: Seq<MetaArg>,
    i0: int,
    i1: int,
    pos: LexPos,
    macr: Seq<(String, MacroData)>,
    reps: Seq<(String, Meta2Arg)>,
    rb: Result<(), CompileError>,
) -> bool
    decreases formals.len(),
{
    if formals.len() == 0 {
        post == pre && i1 == i0 && macr == Seq::<(String, MacroData)>::empty() && reps == Seq::<
            (String, Meta2Arg),
        >::empty() && rb is Ok
    } else {
        exists|w: BindStepW|
            #![trigger w.env()]
            {
                &&& bind_rel(
                    pre,
                    w.mid,
                    caller_param,
                    formals.drop_last(),
                    args,
                    i0,
                    w.im,
                    pos,
                    w.macr0,
                    w.reps0,
                    w.rb0,
                )
                &&& match w.rb0 {
                    Err(e) => post == w.mid && i1 == w.im && macr == w.macr0 && reps == w.reps0
                        && rb == Err::<(), CompileError>(e),
                    Ok(()) => if w.im >= args.len() {
                        post == w.mid && i1 == w.im && macr == w.macr0 && reps == w.reps0 && rb
                            == Err::<(), CompileError>(
                            CompileError { kind: ErrorKind::ExpectedArg, pos },
                        )
                    } else {
                        i1 == w.im + 1 && bind1_rel(
                            w.mid,
                            post,
                            caller_param,
                            formals.last(),
                            args[w.im],
                            w.macr0,
                            w.reps0,
                            macr,
                            reps,
                            rb,
                        )
                    },
                }
            }
    }
}

/// The witness of one node of an expansion: the state after the earlier
/// nodes, how they ended, and what the node itself yielded.
pub ghost struct NodeStepW {
    pub mid: Env,
    pub r1: Result<Seq<Meta2>, CompileError>,
    pub r2: Result<Seq<Meta2>, CompileError>,
}

impl NodeStepW {
    /// The environment the step starts from.
    pub open spec fn env(self) -> Env {
        self.mid
    }
}

/// Expanding a sequence of nodes under one scope tag: each node's output
/// is appended in source order — a label declaration as its qualified
/// identity, an operation invocation as whatever processing it yields —
/// and the first failure aborts with nothing more emitted.
pub open spec fn node_list_rel(
    pre: Env,
    post: Env,
    param: ParamType,
    nodes: Seq<Meta>,
    fuel: u64,
    r: Result<Seq<Meta2>, CompileError>,
) -> bool
    decreases fuel, 3int, nodes.len(),
{
    if nodes.len() == 0 {
        post == pre && r == Ok::<Seq<Meta2>, CompileError>(Seq::empty())
    } else {
        exists|w: NodeStepW|
            #![trigger w.env()]
            {
                &&& node_list_rel(pre, w.mid, param, nodes.drop_last(), fuel, w.r1)
                &&& match w.r1 {
                    Err(e) => post == w.mid && r == Err::<Seq<Meta2>, CompileError>(e),
                    Ok(code1) => match nodes.last() {
                        Meta::Lab(n, l, p) => post == w.mid && r == Ok::<Seq<Meta2>, CompileError>(
                            code1.push(
                                Meta2::Lab(
                                    MetaId {
                                        id: n,
                                        param: if l {
                                            param
                                        } else {
                                            PARAM_GLOBAL
                                        },
                                    },
                                    p,
                                ),
                            ),
                        ),
                        Meta::Op(oname, oargs, opos) => {
                            &&& process_op_rel(w.mid, post, param, oname, oargs@, opos, fuel, w.r2)
                            &&& match w.r2 {
                                Ok(code2) => r == Ok::<Seq<Meta2>, CompileError>(code1 + code2),
                                Err(e) => r == Err::<Seq<Meta2>, CompileError>(e),
                            }
                        },
                    },
                }
            }
    }
}

/// The witness of one operation's processing: how far the dispatched
/// operation consumed the argument list, and what it yielded.
pub ghost struct OpStepW {
    pub i1: int,
    pub inner: Result<Seq<Meta2>, CompileError>,
}

impl OpStepW {
    /// How many leading arguments the operation consumed.
    pub open spec fn consumed(self) -> int {
        self.i1
    }
}

/// Processing one operation invocation: a built-in name is dispatched on
/// its fixed arity and argument kinds, any other name is expanded as a
/// macro; then an argument beyond what was consumed is refused at its
/// own position.
pub open spec fn process_op_rel(
    pre: Env,
    post: Env,
    param: ParamType,
    name: String,
    args: Seq<MetaArg>,
    pos: LexPos,
    fuel: u64,
    r: Result<Seq<Meta2>, CompileError>,
) -> bool
    decreases fuel, 2int, 0int,
{
    exists|w: OpStepW|
        #![trigger w.consumed()]
        {
            &&& op_dispatch_rel(pre, post, param, name, args, pos, fuel, w.i1, w.inner)
            &&& match w.inner {
                Err(e) => r == Err::<Seq<Meta2>, CompileError>(e),
                Ok(code) => if w.i1 < args.len() {
                    r matches Err(e2) && extra_arg_err(args, w.i1, e2)
                } else {
                    r == Ok::<Seq<Meta2>, CompileError>(code)
                },
            }
        }
}

/// The single instruction a successful unary or ternary built-in yields.
pub open spec fn wrap_single(r1: Result<Meta2, CompileError>) -> Result<Seq<Meta2>, CompileError> {
    match r1 {
        Ok(op) => Ok(seq![op]),
        Err(e) => Err(e),
    }
}

/// Recognizing the operation name: the five built-ins are tried first, in
/// the expander's order, and only another name reaches macro expansion.
pub open spec fn op_dispatch_rel(
    pre: Env,
    post: Env,
    param: ParamType,
    name: String,
    args: Seq<MetaArg>,
    pos: LexPos,
    fuel: u64,
    i1: int,
    inner: Result<Seq<Meta2>, CompileError>,
) -> bool
    decreases fuel, 1int, 0int,
{
    if name@ == "zer"@ {
        exists|r1: Result<Meta2, CompileError>|
            #[trigger] process_zer_rel(pre, post, param, args, 0, i1, pos, r1) && inner
                == wrap_single(r1)
    } else if name@ == "inc"@ {
        exists|r1: Result<Meta2, CompileError>|
            #[trigger] process_inc_rel(pre, post, param, args, 0, i1, pos, r1) && inner
                == wrap_single(r1)
    } else if name@ == "out"@ {
        exists|r1: Result<Meta2, CompileError>|
            #[trigger] process_out_rel(pre, post, param, args, 0, i1, pos, r1) && inner
                == wrap_single(r1)
    } else if name@ == "mov"@ {
        exists|r1: Result<Meta2, CompileError>|
            #[trigger] process_mov_rel(pre, post, param, args, 0, i1, pos, r1) && inner
                == wrap_single(r1)
    } else if name@ == "jmp"@ {
        exists|r1: Result<Meta2, CompileError>|
            #[trigger] process_jmp_rel(pre, post, param, args, 0, i1, pos, r1) && inner
                == wrap_single(r1)
    } else {
        expand_rel(pre, post, param, name, args, 0, i1, pos, fuel, inner)
    }
}

/// The witness of one macro expansion: the copy of the definition taken
/// from the table, the binding phase's outcome, and the body phase's
/// outcome between the pushed and popped levels.
pub ghost struct ExpandW {
    pub data: MacroData,
    pub bound: Env,
    pub ib: int,
    pub macr: Seq<(String, MacroData)>,
    pub reps: Seq<(String, Meta2Arg)>,
    pub rb: Result<(), CompileError>,
    pub pushed: Env,
    pub done: Env,
    pub rbody: Result<Seq<Meta2>, CompileError>,
}

impl ExpandW {
    /// The environment after the binding phase.
    pub open spec fn env(self) -> Env {
        self.bound
    }
}

/// Expanding one macro invocation.  Exhausted recursion depth or scope
/// tags is refused at the call site.  Otherwise a fresh tag is minted; a
/// name that is no visible macro is refused at the call site; else each
/// formal is bound to the next actual, one level holding the bindings is
/// pushed, the body is expanded under the fresh tag, and the level is
/// popped again, returning its register slots to the free list.  The
/// first failure aborts: no partial code is returned.
pub open spec fn expand_rel(
    pre: Env,
    post: Env,
    param: ParamType,
    name: String,
    args: Seq<MetaArg>,
    i0: int,
    i1: int,
    pos: LexPos,
    fuel: u64,
    r: Result<Seq<Meta2>, CompileError>,
) -> bool
    decreases fuel, 0int, 0int,
{
    if fuel == 0 {
        post == pre && i1 == i0 && r == Err::<Seq<Meta2>, CompileError>(
            CompileError { kind: ErrorKind::ExpansionTooDeep, pos },
        )
    } else if pre.next_param == ParamType::MAX {
        post == pre && i1 == i0 && r == Err::<Seq<Meta2>, CompileError>(
            CompileError { kind: ErrorKind::ScopeTagsExhausted, pos },
        )
    } else {
        let minted = (Env { next_param: (pre.next_param + 1) as ParamType, ..pre });
        let inner_param = (pre.next_param + 1) as ParamType;
        match vs_find(pre.macro_space.view_levels(), name@) {
            None => post == minted && i1 == i0 && r == Err::<Seq<Meta2>, CompileError>(
                CompileError { kind: ErrorKind::MacroNotFound(name), pos },
            ),
            Some(orig) => exists|w: ExpandW|
                #![trigger w.env()]
                {
                    &&& same_macro(w.data, orig)
                    &&& bind_rel(
                        minted,
                        w.bound,
                        param,
                        w.data.0@,
                        args,
                        i0,
                        w.ib,
                        pos,
                        w.macr,
                        w.reps,
                        w.rb,
                    )
                    &&& i1 == w.ib
                    &&& match w.rb {
                        Err(e) => post == w.bound && r == Err::<Seq<Meta2>, CompileError>(e),
                        Ok(()) => {
                            &&& pushed_env(w.bound, w.pushed, w.macr, w.reps)
                            &&& node_list_rel(
                                w.pushed,
                                w.done,
                                inner_param,
                                w.data.1@,
                                (fuel - 1) as u64,
                                w.rbody,
                            )
                            &&& match w.rbody {
                                Err(e) => post == w.done && r == Err::<Seq<Meta2>, CompileError>(
                                    e,
                                ),
                                Ok(code) => popped_env(w.done, post) && r == Ok::<
                                    Seq<Meta2>,
                                    CompileError,
                                >(code),
                            }
                        },
                    }
                },
        }
    }
}

/// The expansion a whole-program or macro-body result stands for.
pub open spec fn code_result_view(r: Result<CodeMeta2, CompileError>) -> Result<
    Seq<Meta2>,
    CompileError,
> {
    match r {
        Ok(v) => Ok(v@),
        Err(e) => Err(e),
    }
}

/// A binding that has already failed stays failed under further formals.
pub proof fn lemma_bind_rel_err_extend(
    pre: Env,
    post: Env,
    caller_param: ParamType,
    formals: Seq<String>,
    k: int,
    args: Seq<MetaArg>,
    i0: int,
    i1: int,
    pos: LexPos,
    macr: Seq<(String, MacroData)>,
    reps: Seq<(String, Meta2Arg)>,
    e: CompileError,
)
    requires
        0 <= k <= formals.len(),
        bind_rel(
            pre,
            post,
            caller_param,
            formals.take(k),
            args,
            i0,
            i1,
            pos,
            macr,
            reps,
            Err(e),
        ),
    ensures
        bind_rel(pre, post, caller_param, formals, args, i0, i1, pos, macr, reps, Err(e)),
    decreases formals.len() - k,
{
    if k < formals.len() {
        assert(formals.take(k + 1).drop_last() =~= formals.take(k));
        let w = BindStepW { mid: post, im: i1, macr0: macr, reps0: reps, rb0: Err(e) };
        assert(w.env() == post);
        assert(bind_rel(
            pre,
            post,
            caller_param,
            formals.take(k + 1).drop_last(),
            args,
            i0,
            i1,
            pos,
            macr,
            reps,
            Err(e),
        ));
        assert(bind_rel(
            pre,
            post,
            caller_param,
            formals.take(k + 1),
            args,
            i0,
            i1,
            pos,
            macr,
            reps,
            Err(e),
        ));
        lemma_bind_rel_err_extend(
            pre,
            post,
            caller_param,
            formals,
            k + 1,
            args,
            i0,
            i1,
            pos,
            macr,
            reps,
            e,
        );
    } else {
        assert(formals.take(k) =~= formals);
    }
}

/// An expansion that has already failed stays failed under further nodes.
pub proof fn lemma_node_list_err_extend(
    pre: Env,
    post: Env,
    param: ParamType,
    nodes: Seq<Meta>,
    k: int,
    fuel: u64,
    e: CompileError,
)
    requires
        0 <= k <= nodes.len(),
        node_list_rel(pre, post, param, nodes.take(k), fuel, Err(e)),
    ensures
        node_list_rel(pre, post, param, nodes, fuel, Err(e)),
    decreases nodes.len() - k,
{
    if k < nodes.len() {
        assert(nodes.take(k + 1).drop_last() =~= nodes.take(k));
        let w = NodeStepW { mid: post, r1: Err(e), r2: Err(e) };
        assert(w.env() == post);
        assert(node_list_rel(pre, post, param, nodes.take(k + 1).drop_last(), fuel, Err(e)));
        assert(node_list_rel(pre, post, param, nodes.take(k + 1), fuel, Err(e)));
        lemma_node_list_err_extend(pre, post, param, nodes, k + 1, fuel, e);
    } else {
        assert(nodes.take(k) =~= nodes);
    }
}

fn str_is(name: &String, lit: &str) -> (r: bool)
    ensures
        r == (name@ == lit@),
{
    let s = String::from_str(lit);
    *name == s
}

/// The five built-in operation names; they are recognized before any macro
/// lookup and can never be shadowed by a macro.
pub open spec fn is_builtin(name: Seq<char>) -> bool {
    name == "zer"@ || name == "inc"@ || name == "out"@ || name == "mov"@ || name == "jmp"@
}

/// How deeply macro invocations may nest before expansion gives up; the
/// limit turns runaway recursion into a reported failure instead of
/// exhausting the stack.
pub const EXPANSION_DEPTH: u64 = 1000;

/// Expand a macro invocation: mint a fresh scope tag, bind each formal
/// parameter to its actual argument, push one environment level, expand
/// the body under the new tag, and pop the level again — returning its
/// register slots to the free list.  Every label the body declares locally
/// is tagged with the freshly minted tag, so recursive and sibling
/// invocations of one macro can never collide.
pub fn expand_macro(
    env: &mut Env,
    param: ParamType,
    name: String,
    args: &Vec<MetaArg>,
    idx: &mut usize,
    pos: LexPos,
    fuel: u64,
) -> (r: Result<CodeMeta2, CompileError>)
    requires
        old(env).wf(),
        *old(idx) <= args@.len(),
    ensures
        final(env).wf(),
        expand_grow(*old(env), *final(env)),
        final(env).next_reg >= old(env).next_reg,
        *old(idx) <= *final(idx) <= args@.len(),
        r is Ok ==> expand_balanced(*old(env), *final(env)),
        r is Ok ==> old(env).next_param < final(env).next_param,
        r matches Ok(code) ==> lab_tags_in(code@, old(env).next_param, final(env).next_param),
        expand_rel(
            *old(env),
            *final(env),
            param,
            name,
            args@,
            *old(idx) as int,
            *final(idx) as int,
            pos,
            fuel,
            code_result_view(r),
        ),
    decreases fuel, 0int,
{
    let ghost i0 = *old(idx) as int;
    let ghost gname = name;
    if fuel == 0 {
        proof {
            assert(expand_rel(
                *old(env),
                *env,
                param,
                gname,
                args@,
                i0,
                *idx as int,
                pos,
                fuel,
                Err(CompileError { kind: ErrorKind::ExpansionTooDeep, pos }),
            ));
        }
        return Err(CompileError::new(ErrorKind::ExpansionTooDeep, pos));
    }
    if env.next_param == ParamType::MAX {
        proof {
            assert(expand_rel(
                *old(env),
                *env,
                param,
                gname,
                args@,
                i0,
                *idx as int,
                pos,
                fuel,
                Err(CompileError { kind: ErrorKind::ScopeTagsExhausted, pos }),
            ));
        }
        return Err(CompileError::new(ErrorKind::ScopeTagsExhausted, pos));
    }
    let inner_param = env.next_param();
    let ghost minted = *env;
    proof {
        assert(minted == (Env { next_param: (old(env).next_param + 1) as ParamType, ..*old(env) }));
    }

    let ghost orig: MacroData;
    let data = {
        let found = env.get_macro(&name);
        match found {
            Some(d) => {
                proof {
                    orig = *d;
                }
                clone_macro_data(d)
            },
            None => {
                proof {
                    assert(expand_rel(
                        *old(env),
                        *env,
                        param,
                        gname,
                        args@,
                        i0,
                        *idx as int,
                        pos,
                        fuel,
                        Err(CompileError { kind: ErrorKind::MacroNotFound(gname), pos }),
                    ));
                }
                return Err(CompileError::new(ErrorKind::MacroNotFound(name), pos));
            },
        }
    };

    let mut macr: Vec<(String, MacroData)> = Vec::new();
    let mut reps: Vec<(String, Meta2Arg)> = Vec::new();

    proof {
        assert(data.0@.take(0) =~= Seq::<String>::empty());
        assert(macr@ =~= Seq::<(String, MacroData)>::empty());
        assert(reps@ =~= Seq::<(String, Meta2Arg)>::empty());
    }
    let mut fi: usize = 0;
    while fi < data.0.len()
        invariant
            env.wf(),
            *old(idx) <= *idx <= args@.len(),
            env.macro_space == old(env).macro_space,
            env.replacements_space == old(env).replacements_space,
            env.reg_levels().len() == old(env).reg_levels().len(),
            env.next_reg >= old(env).next_reg,
            env.next_param == inner_param,
            inner_param == old(env).next_param + 1,
            minted == (Env { next_param: inner_param, ..*old(env) }),
            fuel >= 1,
            old(env).next_param < ParamType::MAX,
            vs_find(old(env).macro_space.view_levels(), gname@) == Some(orig),
            same_macro(data, orig),
            gname == name,
            fi <= data.0@.len(),
            i0 == *old(idx) as int,
            bind_rel(
                minted,
                *env,
                param,
                data.0@.take(fi as int),
                args@,
                i0,
                *idx as int,
                pos,
                macr@,
                reps@,
                Ok(()),
            ),
        decreases data.0@.len() - fi,
    {
        let ghost stepw = BindStepW {
            mid: *env,
            im: *idx as int,
            macr0: macr@,
            reps0: reps@,
            rb0: Ok(()),
        };
        proof {
            assert(stepw.env() == *env);
            assert(data.0@.take(fi + 1).drop_last() =~= data.0@.take(fi as int));
            assert(data.0@.take(fi + 1).last() == data.0@[fi as int]);
        }
        if *idx >= args.len() {
            proof {
                assert(bind_rel(
                    minted,
                    *env,
                    param,
                    data.0@.take(fi + 1),
                    args@,
                    i0,
                    *idx as int,
                    pos,
                    macr@,
                    reps@,
                    Err(CompileError { kind: ErrorKind::ExpectedArg, pos }),
                ));
                lemma_bind_rel_err_extend(
                    minted,
                    *env,
                    param,
                    data.0@,
                    fi + 1,
                    args@,
                    i0,
                    *idx as int,
                    pos,
                    macr@,
                    reps@,
                    CompileError { kind: ErrorKind::ExpectedArg, pos },
                );
                let ew = ExpandW {
                    data,
                    bound: *env,
                    ib: *idx as int,
                    macr: macr@,
                    reps: reps@,
                    rb: Err(CompileError { kind: ErrorKind::ExpectedArg, pos }),
                    pushed: *env,
                    done: *env,
                    rbody: Err(CompileError { kind: ErrorKind::ExpectedArg, pos }),
                };
                assert(ew.env() == *env);
                assert(expand_rel(
                    *old(env),
                    *env,
                    param,
                    gname,
                    args@,
                    i0,
                    *idx as int,
                    pos,
                    fuel,
                    Err(CompileError { kind: ErrorKind::ExpectedArg, pos }),
                ));
            }
            return Err(expected_arg(pos));
        }
        let arg = &args[*idx];
        *idx = *idx + 1;
        let formal = data.0[fi].clone();
        let ghost gformal = formal;
        match arg {
            MetaArg::Reg(rname, l, nls, rpos) => {
                match env.get_reg(rname.clone(), *l, *nls) {
                    Ok(slot) => {
                        reps.push((formal, Meta2Arg::Reg(slot)));
                        proof {
                            assert(bind1_rel(
                                stepw.mid,
                                *env,
                                param,
                                gformal,
                                args@[stepw.im],
                                stepw.macr0,
                                stepw.reps0,
                                macr@,
                                reps@,
                                Ok(()),
                            ));
                        }
                    },
                    Err(()) => {
                        let ghost e = CompileError {
                            kind: ErrorKind::RegistersExhausted,
                            pos: *rpos,
                        };
                        proof {
                            assert(bind1_rel(
                                stepw.mid,
                                *env,
                                param,
                                gformal,
                                args@[stepw.im],
                                stepw.macr0,
                                stepw.reps0,
                                macr@,
                                reps@,
                                Err(e),
                            ));
                            assert(bind_rel(
                                minted,
                                *env,
                                param,
                                data.0@.take(fi + 1),
                                args@,
                                i0,
                                *idx as int,
                                pos,
                                macr@,
                                reps@,
                                Err(e),
                            ));
                            lemma_bind_rel_err_extend(
                                minted,
                                *env,
                                param,
                                data.0@,
                                fi + 1,
                                args@,
                                i0,
                                *idx as int,
                                pos,
                                macr@,
                                reps@,
                                e,
                            );
                            let ew = ExpandW {
                                data,
                                bound: *env,
                                ib: *idx as int,
                                macr: macr@,
                                reps: reps@,
                                rb: Err(e),
                                pushed: *env,
                                done: *env,
                                rbody: Err(e),
                            };
                            assert(ew.env() == *env);
                            assert(expand_rel(
                                *old(env),
                                *env,
                                param,
                                gname,
                                args@,
                                i0,
                                *idx as int,
                                pos,
                                fuel,
                                Err(e),
                            ));
                        }
                        return Err(CompileError::new(ErrorKind::RegistersExhausted, *rpos));
                    },
                }
            },
            MetaArg::Lab(lname, l, _) => {
                let tag = if *l {
                    param
                } else {
                    PARAM_GLOBAL
                };
                reps.push((formal, Meta2Arg::Lab(MetaId::new(lname.clone(), tag))));
                proof {
                    assert(bind1_rel(
                        stepw.mid,
                        *env,
                        param,
                        gformal,
                        args@[stepw.im],
                        stepw.macr0,
                        stepw.reps0,
                        macr@,
                        reps@,
                        Ok(()),
                    ));
                }
            },
            MetaArg::Code(cids, ccode, _) => {
                macr.push((formal, (clone_names(cids), clone_code(ccode))));
                proof {
                    assert(macr@.drop_last() =~= stepw.macr0);
                    assert(bind1_rel(
                        stepw.mid,
                        *env,
                        param,
                        gformal,
                        args@[stepw.im],
                        stepw.macr0,
                        stepw.reps0,
                        macr@,
                        reps@,
                        Ok(()),
                    ));
                }
            },
            MetaArg::Id(iname, ipos) => {
                let rep = match env.replace(iname) {
                    Some(v) => Some(clone_meta2_arg(v)),
                    None => None,
                };
                match rep {
                    Some(v) => {
                        reps.push((formal, v));
                        proof {
                            assert(bind1_rel(
                                stepw.mid,
                                *env,
                                param,
                                gformal,
                                args@[stepw.im],
                                stepw.macr0,
                                stepw.reps0,
                                macr@,
                                reps@,
                                Ok(()),
                            ));
                        }
                    },
                    None => {
                        let md = {
                            let found = env.get_macro(iname);
                            match found {
                                Some(d) => Some(clone_macro_data(d)),
                                None => None,
                            }
                        };
                        match md {
                            Some(d) => {
                                macr.push((formal, d));
                                proof {
                                    assert(macr@.drop_last() =~= stepw.macr0);
                                    assert(bind1_rel(
                                        stepw.mid,
                                        *env,
                                        param,
                                        gformal,
                                        args@[stepw.im],
                                        stepw.macr0,
                                        stepw.reps0,
                                        macr@,
                                        reps@,
                                        Ok(()),
                                    ));
                                }
                            },
                            None => {
                                let ghost e = CompileError {
                                    kind: ErrorKind::CannotExpand(*iname),
                                    pos: *ipos,
                                };
                                proof {
                                    assert(bind1_rel(
                                        stepw.mid,
                                        *env,
                                        param,
                                        gformal,
                                        args@[stepw.im],
                                        stepw.macr0,
                                        stepw.reps0,
                                        macr@,
                                        reps@,
                                        Err(e),
                                    ));
                                    assert(bind_rel(
                                        minted,
                                        *env,
                                        param,
                                        data.0@.take(fi + 1),
                                        args@,
                                        i0,
                                        *idx as int,
                                        pos,
                                        macr@,
                                        reps@,
                                        Err(e),
                                    ));
                                    lemma_bind_rel_err_extend(
                                        minted,
                                        *env,
                                        param,
                                        data.0@,
                                        fi + 1,
                                        args@,
                                        i0,
                                        *idx as int,
                                        pos,
                                        macr@,
                                        reps@,
                                        e,
                                    );
                                    let ew = ExpandW {
                                        data,
                                        bound: *env,
                                        ib: *idx as int,
                                        macr: macr@,
                                        reps: reps@,
                                        rb: Err(e),
                                        pushed: *env,
                                        done: *env,
                                        rbody: Err(e),
                                    };
                                    assert(ew.env() == *env);
                                    assert(expand_rel(
                                        *old(env),
                                        *env,
                                        param,
                                        gname,
                                        args@,
                                        i0,
                                        *idx as int,
                                        pos,
                                        fuel,
                                        Err(e),
                                    ));
                                }
                                return Err(
                                    CompileError::new(
                                        ErrorKind::CannotExpand(iname.clone()),
                                        *ipos,
                                    ),
                                );
                            },
                        }
                    },
                }
            },
        }
        proof {
            assert(bind_rel(
                minted,
                *env,
                param,
                data.0@.take(fi + 1),
                args@,
                i0,
                *idx as int,
                pos,
                macr@,
                reps@,
                Ok(()),
            ));
        }
        fi += 1;
    }
    proof {
        assert(data.0@.take(data.0@.len() as int) =~= data.0@);
    }
    let ghost bound = *env;
    let ghost macr_v = macr@;
    let ghost reps_v = reps@;

    env.push_level(macr, reps);
    let ghost pushed = *env;

    let mut to_ret: Vec<Meta2> = Vec::new();
    let ghost entry_param = old(env).next_param;
    proof {
        assert(data.1@.take(0) =~= Seq::<Meta>::empty());
        assert(to_ret@ =~= Seq::<Meta2>::empty());
    }

    let mut bi: usize = 0;
    while bi < data.1.len()
        invariant
            env.wf(),
            fuel >= 1,
            bi <= data.1@.len(),
            *old(idx) <= *idx <= args@.len(),
            env.reg_levels().len() == old(env).reg_levels().len() + 1,
            env.macro_space.view_levels().len() == old(env).macro_space.view_levels().len() + 1,
            env.replacements_space.view_levels().len() == old(
                env,
            ).replacements_space.view_levels().len() + 1,
            env.next_reg >= old(env).next_reg,
            entry_param == old(env).next_param,
            entry_param < inner_param <= env.next_param,
            inner_param == old(env).next_param + 1,
            old(env).next_param < ParamType::MAX,
            vs_find(old(env).macro_space.view_levels(), gname@) == Some(orig),
            same_macro(data, orig),
            gname == name,
            i0 == *old(idx) as int,
            minted == (Env { next_param: inner_param, ..*old(env) }),
            bind_rel(minted, bound, param, data.0@, args@, i0, *idx as int, pos, macr_v, reps_v, Ok(())),
            pushed_env(bound, pushed, macr_v, reps_v),
            lab_tags_in(to_ret@, entry_param, env.next_param),
            node_list_rel(
                pushed,
                *env,
                inner_param,
                data.1@.take(bi as int),
                (fuel - 1) as u64,
                Ok(to_ret@),
            ),
        decreases data.1@.len() - bi,
    {
        let ghost pre_ret = to_ret@;
        let ghost pre_env = *env;
        proof {
            assert(data.1@.take(bi + 1).drop_last() =~= data.1@.take(bi as int));
            assert(data.1@.take(bi + 1).last() == data.1@[bi as int]);
        }
        match &data.1[bi] {
            Meta::Op(op_name, op_args, op_pos) => {
                let sub = process_op(env, inner_param, op_name.clone(), op_args, *op_pos, fuel - 1);
                match sub {
                    Ok(mut code) => {
                        let ghost code_v = code@;
                        to_ret.append(&mut code);
                        proof {
                            let w = NodeStepW { mid: pre_env, r1: Ok(pre_ret), r2: Ok(code_v) };
                            assert(w.env() == pre_env);
                            assert(to_ret@ == pre_ret + code_v);
                            assert(node_list_rel(
                                pushed,
                                *env,
                                inner_param,
                                data.1@.take(bi + 1),
                                (fuel - 1) as u64,
                                Ok(to_ret@),
                            ));
                            assert forall|k: int|
                                0 <= k < to_ret@.len() implies ((#[trigger] to_ret@[k]) matches
                                Meta2::Lab(id, _) ==> id.param == PARAM_GLOBAL || (entry_param
                                    < id.param && id.param <= env.next_param)) by {
                                if k < pre_ret.len() {
                                    assert(to_ret@[k] == pre_ret[k]);
                                } else {
                                    assert(to_ret@[k] == code_v[k - pre_ret.len()]);
                                }
                            }
                        }
                    },
                    Err(e) => {
                        proof {
                            let w = NodeStepW { mid: pre_env, r1: Ok(pre_ret), r2: Err(e) };
                            assert(w.env() == pre_env);
                            assert(node_list_rel(
                                pushed,
                                *env,
                                inner_param,
                                data.1@.take(bi + 1),
                                (fuel - 1) as u64,
                                Err(e),
                            ));
                            lemma_node_list_err_extend(
                                pushed,
                                *env,
                                inner_param,
                                data.1@,
                                bi + 1,
                                (fuel - 1) as u64,
                                e,
                            );
                            let ew = ExpandW {
                                data,
                                bound,
                                ib: *idx as int,
                                macr: macr_v,
                                reps: reps_v,
                                rb: Ok(()),
                                pushed,
                                done: *env,
                                rbody: Err(e),
                            };
                            assert(ew.env() == bound);
                            assert(expand_rel(
                                *old(env),
                                *env,
                                param,
                                gname,
                                args@,
                                i0,
                                *idx as int,
                                pos,
                                fuel,
                                Err(e),
                            ));
                        }
                        return Err(e);
                    },
                }
            },
            Meta::Lab(lname, is_local, lpos) => {
                let tag = if *is_local {
                    inner_param
                } else {
                    PARAM_GLOBAL
                };
                to_ret.push(Meta2::Lab(MetaId::new(lname.clone(), tag), *lpos));
                proof {
                    let w = NodeStepW { mid: pre_env, r1: Ok(pre_ret), r2: Ok(pre_ret) };
                    assert(w.env() == pre_env);
                    assert(node_list_rel(
                        pushed,
                        *env,
                        inner_param,
                        data.1@.take(bi + 1),
                        (fuel - 1) as u64,
                        Ok(to_ret@),
                    ));
                    assert forall|k: int|
                        0 <= k < to_ret@.len() implies ((#[trigger] to_ret@[k]) matches Meta2::Lab(
                        id,
                        _,
                    ) ==> id.param == PARAM_GLOBAL || (entry_param < id.param && id.param
                            <= env.next_param)) by {
                        if k < pre_ret.len() {
                            assert(to_ret@[k] == pre_ret[k]);
                        }
                    }
                }
            },
        }
        bi += 1;
    }
    proof {
        assert(data.1@.take(data.1@.len() as int) =~= data.1@);
    }
    let ghost done = *env;

    env.pop_level();

    proof {
        let ew = ExpandW {
            data,
            bound,
            ib: *idx as int,
            macr: macr_v,
            reps: reps_v,
            rb: Ok(()),
            pushed,
            done,
            rbody: Ok(to_ret@),
        };
        assert(ew.env() == bound);
        assert(expand_rel(
            *old(env),
            *env,
            param,
            gname,
            args@,
            i0,
            *idx as int,
            pos,
            fuel,
            Ok(to_ret@),
        ));
    }
    Ok(to_ret)
}

/// Process one operation invocation: a built-in operation name is
/// recognized first — with its fixed arity and argument kinds — and only
/// another name is looked up as a macro and expanded.  Arguments beyond
/// the operation's arity are refused at the position of the first extra
/// one.
pub fn process_op(
    env: &mut Env,
    param: ParamType,
    name: String,
    args: &Vec<MetaArg>,
    pos: LexPos,
    fuel: u64,
) -> (r: Result<CodeMeta2, CompileError>)
    requires
        old(env).wf(),
    ensures
        final(env).wf(),
        expand_grow(*old(env), *final(env)),
        final(env).next_reg >= old(env).next_reg,
        r is Ok ==> expand_balanced(*old(env), *final(env)),
        r matches Ok(code) ==> lab_tags_in(code@, old(env).next_param, final(env).next_param),
        process_op_rel(*old(env), *final(env), param, name, args@, pos, fuel, code_result_view(r)),
    decreases fuel, 1int,
{
    proof {
        reveal_strlit("zer");
        reveal_strlit("inc");
        reveal_strlit("out");
        reveal_strlit("mov");
        reveal_strlit("jmp");
        assert("zer"@[0] == 'z' && "inc"@[0] == 'i' && "out"@[0] == 'o' && "mov"@[0] == 'm'
            && "jmp"@[0] == 'j');
        assert("zer"@ != "inc"@ && "zer"@ != "out"@ && "zer"@ != "mov"@ && "zer"@ != "jmp"@);
        assert("inc"@ != "out"@ && "inc"@ != "mov"@ && "inc"@ != "jmp"@);
        assert("out"@ != "mov"@ && "out"@ != "jmp"@);
        assert("mov"@ != "jmp"@);
    }
    let mut idx: usize = 0;
    let to_ret: Vec<Meta2>;
    let ghost mut inner: Result<Seq<Meta2>, CompileError>;
    if str_is(&name, "zer") {
        let pr = process_zer(env, param, args, &mut idx, pos);
        let ghost gpr = pr;
        proof {
            inner = wrap_single(gpr);
        }
        match pr {
            Ok(op) => {
                to_ret = as_linked(op);
            },
            Err(e) => {
                proof {
                    finish_dispatch(*old(env), *env, param, name, args@, pos, fuel, idx as int, inner);
                }
                return Err(e);
            },
        }
    } else if str_is(&name, "inc") {
        let pr = process_inc(env, param, args, &mut idx, pos);
        let ghost gpr = pr;
        proof {
            inner = wrap_single(gpr);
        }
        match pr {
            Ok(op) => {
                to_ret = as_linked(op);
            },
            Err(e) => {
                proof {
                    finish_dispatch(*old(env), *env, param, name, args@, pos, fuel, idx as int, inner);
                }
                return Err(e);
            },
        }
    } else if str_is(&name, "out") {
        let pr = process_out(env, param, args, &mut idx, pos);
        let ghost gpr = pr;
        proof {
            inner = wrap_single(gpr);
        }
        match pr {
            Ok(op) => {
                to_ret = as_linked(op);
            },
            Err(e) => {
                proof {
                    finish_dispatch(*old(env), *env, param, name, args@, pos, fuel, idx as int, inner);
                }
                return Err(e);
            },
        }
    } else if str_is(&name, "mov") {
        let pr = process_mov(env, param, args, &mut idx, pos);
        let ghost gpr = pr;
        proof {
            inner = wrap_single(gpr);
        }
        match pr {
            Ok(op) => {
                to_ret = as_linked(op);
            },
            Err(e) => {
                proof {
                    finish_dispatch(*old(env), *env, param, name, args@, pos, fuel, idx as int, inner);
                }
                return Err(e);
            },
        }
    } else if str_is(&name, "jmp") {
        let pr = process_jmp(env, param, args, &mut idx, pos);
        let ghost gpr = pr;
        proof {
            inner = wrap_single(gpr);
        }
        match pr {
            Ok(op) => {
                to_ret = as_linked(op);
            },
            Err(e) => {
                proof {
                    finish_dispatch(*old(env), *env, param, name, args@, pos, fuel, idx as int, inner);
                }
                return Err(e);
            },
        }
    } else {
        let pr = expand_macro(env, param, name, args, &mut idx, pos, fuel);
        let ghost gpr = pr;
        proof {
            inner = code_result_view(gpr);
        }
        match pr {
            Ok(code) => {
                to_ret = code;
            },
            Err(e) => {
                proof {
                    finish_dispatch(*old(env), *env, param, name, args@, pos, fuel, idx as int, inner);
                }
                return Err(e);
            },
        }
    }
    proof {
        assert(inner == Ok::<Seq<Meta2>, CompileError>(to_ret@));
    }

    if idx < args.len() {
        let extra = &args[idx];
        let err = CompileError::new(ErrorKind::ExtraArg(extra.str()), extra.pos());
        let ghost gerr = err;
        proof {
            assert(extra_arg_err(args@, idx as int, gerr));
            finish_dispatch(*old(env), *env, param, name, args@, pos, fuel, idx as int, inner);
        }
        return Err(err);
    }

    proof {
        finish_dispatch(*old(env), *env, param, name, args@, pos, fuel, idx as int, inner);
    }
    Ok(to_ret)
}

/// From a dispatch outcome to the whole operation's relation: whichever
/// result the extra-argument check then settles on is related.
proof fn finish_dispatch(
    pre: Env,
    post: Env,
    param: ParamType,
    name: String,
    args: Seq<MetaArg>,
    pos: LexPos,
    fuel: u64,
    i1: int,
    inner: Result<Seq<Meta2>, CompileError>,
)
    requires
        op_dispatch_rel(pre, post, param, name, args, pos, fuel, i1, inner),
    ensures
        forall|r: Result<Seq<Meta2>, CompileError>|
            (match inner {
                Err(e) => r == Err::<Seq<Meta2>, CompileError>(e),
                Ok(code) => if i1 < args.len() {
                    r matches Err(e2) && extra_arg_err(args, i1, e2)
                } else {
                    r == Ok::<Seq<Meta2>, CompileError>(code)
                },
            }) ==> #[trigger] process_op_rel(pre, post, param, name, args, pos, fuel, r),
{
    assert forall|r: Result<Seq<Meta2>, CompileError>|
        (match inner {
            Err(e) => r == Err::<Seq<Meta2>, CompileError>(e),
            Ok(code) => if i1 < args.len() {
                r matches Err(e2) && extra_arg_err(args, i1, e2)
            } else {
                r == Ok::<Seq<Meta2>, CompileError>(code)
            },
        }) implies #[trigger] process_op_rel(pre, post, param, name, args, pos, fuel, r) by {
        let w = OpStepW { i1, inner };
        assert(w.consumed() == i1);
    }
}

/// The environment a compilation starts from: the given macro table as
/// the only macro layer, one empty register layer, one empty substitution
/// layer, and no slots or scope tags handed out yet.
pub open spec fn init_env(e: Env, macros: Seq<(String, MacroData)>) -> bool {
    &&& e.wf()
    &&& e.next_reg == 0
    &&& e.next_param == 0
    &&& e.free_regs@ == Seq::<CellType>::empty()
    &&& e.macro_space.view_levels() == seq![macros]
    &&& e.reg_levels() == seq![Seq::<(String, CellType)>::empty()]
    &&& e.replacements_space.view_levels() == seq![Seq::<(String, Meta2Arg)>::empty()]
}

/// Expand a whole program: in a fresh environment holding the macro
/// table, every top-level node is expanded in source order under the
/// global scope tag — so top-level labels carry the global tag — and the
/// first error aborts with nothing emitted.
pub fn to_meta2(meta: CodeMeta, macros: Vec<(String, MacroData)>) -> (r: Result<
    CodeMeta2,
    CompileError,
>)
    ensures
        exists|env0: Env, env1: Env|
            init_env(env0, macros@) && #[trigger] node_list_rel(
                env0,
                env1,
                PARAM_GLOBAL,
                meta@,
                EXPANSION_DEPTH,
                code_result_view(r),
            ),
{
    let ghost macros_v = macros@;
    let mut env = Env::new(macros);
    let ghost env0 = env;
    proof {
        assert(init_env(env0, macros_v));
        assert(meta@.take(0) =~= Seq::<Meta>::empty());
    }
    let mut meta2: Vec<Meta2> = Vec::new();
    proof {
        assert(meta2@ =~= Seq::<Meta2>::empty());
    }

    let mut i: usize = 0;
    while i < meta.len()
        invariant
            env.wf(),
            i <= meta@.len(),
            init_env(env0, macros_v),
            macros_v == macros@,
            node_list_rel(env0, env, PARAM_GLOBAL, meta@.take(i as int), EXPANSION_DEPTH, Ok(meta2@)),
        decreases meta@.len() - i,
    {
        let ghost pre_ret = meta2@;
        let ghost pre_env = env;
        proof {
            assert(meta@.take(i + 1).drop_last() =~= meta@.take(i as int));
            assert(meta@.take(i + 1).last() == meta@[i as int]);
        }
        match &meta[i] {
            Meta::Op(name, args, pos) => {
                let sub = process_op(&mut env, PARAM_GLOBAL, name.clone(), args, *pos, EXPANSION_DEPTH);
                match sub {
                    Ok(mut code) => {
                        let ghost code_v = code@;
                        meta2.append(&mut code);
                        proof {
                            let w = NodeStepW { mid: pre_env, r1: Ok(pre_ret), r2: Ok(code_v) };
                            assert(w.env() == pre_env);
                            assert(meta2@ == pre_ret + code_v);
                            assert(node_list_rel(
                                env0,
                                env,
                                PARAM_GLOBAL,
                                meta@.take(i + 1),
                                EXPANSION_DEPTH,
                                Ok(meta2@),
                            ));
                        }
                    },
                    Err(e) => {
                        proof {
                            let w = NodeStepW { mid: pre_env, r1: Ok(pre_ret), r2: Err(e) };
                            assert(w.env() == pre_env);
                            assert(node_list_rel(
                                env0,
                                env,
                                PARAM_GLOBAL,
                                meta@.take(i + 1),
                                EXPANSION_DEPTH,
                                Err(e),
                            ));
                            lemma_node_list_err_extend(
                                env0,
                                env,
                                PARAM_GLOBAL,
                                meta@,
                                i + 1,
                                EXPANSION_DEPTH,
                                e,
                            );
                        }
                        return Err(e);
                    },
                }
            },
            Meta::Lab(name, _, pos) => {
                meta2.push(process_label(name.clone(), PARAM_GLOBAL, *pos));
                proof {
                    let w = NodeStepW { mid: pre_env, r1: Ok(pre_ret), r2: Ok(pre_ret) };
                    assert(w.env() == pre_env);
                    assert(node_list_rel(
                        env0,
                        env,
                        PARAM_GLOBAL,
                        meta@.take(i + 1),
                        EXPANSION_DEPTH,
                        Ok(meta2@),
                    ));
                }
            },
        }
        i += 1;
    }
    proof {
        assert(meta@.take(meta@.len() as int) =~= meta@);
    }

    Ok(meta2)
}

/// The stable textual form of a qualified label: `@name_scopeTag`.
pub open spec fn render_id_spec(id: MetaId) -> Seq<char> {
    "@"@ + id.id@ + "_"@ + dec_spec(id.param as nat)
}

/// One line of the expansion listing.
pub open spec fn render_line_spec(m: Meta2) -> Seq<char> {
    match m {
        Meta2::Lab(id, _) => render_id_spec(id) + "\n"@,
        Meta2::Zer(r) => "zer %"@ + dec_spec(r as nat) + "\n"@,
        Meta2::Inc(r) => "inc %"@ + dec_spec(r as nat) + "\n"@,
        Meta2::Out(r) => "out %"@ + dec_spec(r as nat) + "\n"@,
        Meta2::Mov(r1, r2) => "mov %"@ + dec_spec(r1 as nat) + " %"@
            + dec_spec(r2 as nat) + "\n"@,
        Meta2::Jmp(r1, r2, id, _) => "jmp %"@ + dec_spec(r1 as nat) + " %"@
            + dec_spec(r2 as nat) + " "@ + render_id_spec(id) + "\n"@,
    }
}

/// The expansion listing: one line per qualified instruction.
pub open spec fn render_meta2_spec(code: Seq<Meta2>) -> Seq<char>
    decreases code.len(),
{
    if code.len() == 0 {
        Seq::empty()
    } else {
        render_meta2_spec(code.drop_last()) + render_line_spec(code.last())
    }
}

fn push_id(cs: &mut Vec<char>, id: &MetaId)
    ensures
        final(cs)@ == old(cs)@ + render_id_spec(*id),
{
    cs.push('@');
    let name = string_to_chars(id.id.as_str());
    append_chars(cs, &name);
    cs.push('_');
    let tag = dec_chars(id.param);
    append_chars(cs, &tag);
    proof {
        reveal_strlit("@");
        reveal_strlit("_");
        assert(cs@ =~= old(cs)@ + render_id_spec(*id));
    }
}

fn push_slot(cs: &mut Vec<char>, lead: &str, r: CellType, lead_view: Ghost<Seq<char>>)
    requires
        lead@ == lead_view@,
    ensures
        final(cs)@ == old(cs)@ + lead_view@ + dec_spec(r as nat),
{
    let lead_chars = string_to_chars(lead);
    append_chars(cs, &lead_chars);
    let digits = dec_chars(r as u64);
    append_chars(cs, &digits);
    proof {
        assert(cs@ =~= old(cs)@ + lead_view@ + dec_spec(r as nat));
    }
}

/// Render the flat qualified instruction sequence in its stable textual
/// form, for the expansion-only inspection mode.
pub fn render_meta2(meta: &CodeMeta2) -> (r: String)
    ensures
        r@ == render_meta2_spec(meta@),
{
    let mut cs: Vec<char> = Vec::new();
    let mut i: usize = 0;
    while i < meta.len()
        invariant
            i <= meta@.len(),
            cs@ == render_meta2_spec(meta@.take(i as int)),
        decreases meta@.len() - i,
    {
        let ghost pre = cs@;
        match &meta[i] {
            Meta2::Lab(id, _) => {
                push_id(&mut cs, id);
                cs.push('\n');
            },
            Meta2::Zer(r) => {
                push_slot(&mut cs, "zer %", *r, Ghost("zer %"@));
                cs.push('\n');
            },
            Meta2::Inc(r) => {
                push_slot(&mut cs, "inc %", *r, Ghost("inc %"@));
                cs.push('\n');
            },
            Meta2::Out(r) => {
                push_slot(&mut cs, "out %", *r, Ghost("out %"@));
                cs.push('\n');
            },
            Meta2::Mov(r1, r2) => {
                push_slot(&mut cs, "mov %", *r1, Ghost("mov %"@));
                push_slot(&mut cs, " %", *r2, Ghost(" %"@));
                cs.push('\n');
            },
            Meta2::Jmp(r1, r2, id, _) => {
                push_slot(&mut cs, "jmp %", *r1, Ghost("jmp %"@));
                push_slot(&mut cs, " %", *r2, Ghost(" %"@));
                cs.push(' ');
                push_id(&mut cs, id);
                cs.push('\n');
            },
        }
        i += 1;
        proof {
            reveal_strlit("\n");
            reveal_strlit(" ");
            assert(meta@.take(i as int).drop_last() =~= meta@.take(i as int - 1));
            assert(meta@.take(i as int).last() == meta@[i as int - 1]);
            assert(cs@ =~= render_meta2_spec(meta@.take(i as int)));
        }
    }
    proof {
        assert(meta@.take(meta@.len() as int) =~= meta@);
    }
    chars_to_string(&cs)
}

/// Law (hygiene): two macro invocations mint scope-tag ranges that never
/// overlap, so the label identities they declare locally can never
/// collide — a self-recursive macro with a local label assembles without
/// a duplicate-label failure.  The ranges come from `expand_macro`, whose
/// successful runs tag local declarations within `(entry, exit]` of the
/// scope-tag counter, which only ever grows.
pub proof fn lemma_invocation_tags_distinct(
    lo1: ParamType,
    hi1: ParamType,
    lo2: ParamType,
    hi2: ParamType,
    t1: ParamType,
    t2: ParamType,
)
    requires
        lo1 < t1 <= hi1,
        lo2 < t2 <= hi2,
        hi1 <= lo2,
    ensures
        t1 != t2,
{
}

/// Law (allocator): a name never resolves to two different slots under one
/// lookup mode while its scope stays open — at most one fresh slot is ever
/// allocated for it, after which the binding is stable and resolving it
/// again changes nothing.
pub proof fn lemma_resolution_stable(
    pre: Env,
    mid: Env,
    post: Env,
    name: String,
    is_local: bool,
    nls: bool,
    r1: Result<CellType, ()>,
    r2: Result<CellType, ()>,
)
    requires
        get_reg_post(pre, mid, name, is_local, nls, r1),
        get_reg_post(mid, post, name, is_local, nls, r2),
        r1 is Ok,
    ensures
        r2 == r1,
        post == mid,
{
}

/// A slot the innermost-first search finds really is bound in some layer.
pub proof fn lemma_vs_find_bound(levels: Seq<Seq<(String, CellType)>>, name: Seq<char>, s: CellType)
    requires
        vs_find(levels, name) == Some(s),
    ensures
        slot_bound(levels, s),
    decreases levels.len(),
{
    if levels.len() > 0 {
        if al_find(levels.last(), name) is Some {
            lemma_al_find_bound(levels.last(), name, s);
            let j = choose|j: int|
                0 <= j < levels.last().len() && (#[trigger] levels.last()[j]).1 == s;
            assert(levels[levels.len() - 1][j].1 == s);
        } else {
            lemma_vs_find_bound(levels.drop_last(), name, s);
            let (i, j) = choose|i: int, j: int|
                0 <= i < levels.drop_last().len() && 0 <= j < levels.drop_last()[i].len() && (
                #[trigger] levels.drop_last()[i][j]).1 == s;
            assert(levels[i][j].1 == s);
        }
    }
}

proof fn lemma_al_find_bound(level: Seq<(String, CellType)>, name: Seq<char>, s: CellType)
    requires
        al_find(level, name) == Some(s),
    ensures
        exists|j: int| 0 <= j < level.len() && (#[trigger] level[j]).1 == s,
    decreases level.len(),
{
    if level.first().0@ == name {
        assert(level[0].1 == s);
    } else {
        lemma_al_find_bound(level.drop_first(), name, s);
        let j = choose|j: int|
            0 <= j < level.drop_first().len() && (#[trigger] level.drop_first()[j]).1 == s;
        assert(level[j + 1].1 == s);
    }
}

/// Law (scope markers): when a register name is bound in an enclosing
/// layer but not in the innermost one, a reference carrying the
/// search-enclosing marker resolves to that same outer slot, while a
/// reference without the marker misses — and any slot the allocator then
/// hands out is distinct from the outer one, so the two references name
/// independent registers.
pub proof fn lemma_search_marker_resolution(env: Env, name: String, post: Env, s: CellType, g:
    Result<CellType, ()>)
    requires
        env.wf(),
        al_find(env.reg_levels().last(), name@) is None,
        vs_find(env.reg_levels(), name@) == Some(s),
        get_reg_post(env, post, name, true, false, g),
    ensures
        reg_lookup(env, name@, true, true) == Some(s),
        reg_lookup(env, name@, true, false) is None,
        g matches Ok(c) ==> c != s,
{
    lemma_vs_find_bound(env.reg_levels(), name@, s);
}

} // verus!
