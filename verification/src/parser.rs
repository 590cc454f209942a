//! The assembler: two full passes turn the flat scope-qualified
//! instruction sequence into the final instruction vector.  The first
//! pass records each label identity's instruction address and refuses a
//! duplicate identity; the second emits one resolved instruction per
//! non-label node, refusing a jump whose target identity was never
//! declared.

use vstd::prelude::*;

use crate::error::CompileError;
use crate::error::ErrorKind;
use crate::lexer::Lexer;
use crate::meta::parse_to_meta;
use crate::meta::lex_wf;
use crate::meta2::CodeMeta2;
use crate::meta2::Meta2;
use crate::meta2::MetaId;
use crate::meta2::ParamType;
use crate::meta2::to_meta2;
use crate::meta2::code_result_view;
use crate::meta2::init_env;
use crate::meta2::node_list_rel;
use crate::meta2::EXPANSION_DEPTH;
use crate::meta2::PARAM_GLOBAL;
use crate::meta2::Env;
use crate::meta::ParsMetaResult;
use crate::util::al_unique;
use crate::vm::Op;
use crate::vm::PosType;

verus! {

/// A label identity as a mathematical value: name and scope tag.
pub type LabKey = (Seq<char>, ParamType);

/// Whether a node is a label declaration.
pub open spec fn is_lab(m: Meta2) -> bool {
    m matches Meta2::Lab(_, _)
}

/// The nodes that become instructions, in order: everything but the
/// label declarations.
pub open spec fn ops_only(code: Seq<Meta2>) -> Seq<Meta2>
    decreases code.len(),
{
    if code.len() == 0 {
        Seq::empty()
    } else if is_lab(code.last()) {
        ops_only(code.drop_last())
    } else {
        ops_only(code.drop_last()).push(code.last())
    }
}

/// The running instruction counter: label declarations do not advance it.
pub open spec fn op_count(code: Seq<Meta2>) -> nat {
    ops_only(code).len()
}

/// The identity a label declaration or jump target carries.
pub open spec fn meta2_lab_key(m: Meta2) -> LabKey
    recommends
        is_lab(m),
{
    (m->Lab_0.id@, m->Lab_0.param)
}

/// The first declaration of a label identity, if any.
pub open spec fn find_lab(code: Seq<Meta2>, key: LabKey) -> Option<int>
    decreases code.len(),
{
    if code.len() == 0 {
        None
    } else if is_lab(code.first()) && meta2_lab_key(code.first()) == key {
        Some(0int)
    } else {
        match find_lab(code.drop_first(), key) {
            Some(i) => Some(i + 1),
            None => None,
        }
    }
}

/// Whether a label identity is declared anywhere.
pub open spec fn declared(code: Seq<Meta2>, key: LabKey) -> bool {
    find_lab(code, key) is Some
}

/// The absolute instruction address of a label identity: the number of
/// instructions before its first declaration.
pub open spec fn label_pos(code: Seq<Meta2>, key: LabKey) -> nat {
    op_count(code.take(find_lab(code, key)->0))
}

/// Whether the declaration at `j` repeats an identity declared earlier.
pub open spec fn dup_at(code: Seq<Meta2>, j: int) -> bool {
    &&& 0 <= j < code.len()
    &&& is_lab(code[j])
    &&& exists|i: int|
        0 <= i < j && is_lab(#[trigger] code[i]) && meta2_lab_key(code[i]) == meta2_lab_key(
            code[j],
        )
}

/// Whether any label identity is declared twice.
pub open spec fn has_dup(code: Seq<Meta2>) -> bool {
    exists|j: int| dup_at(code, j)
}

/// Whether every jump's target identity is declared.
pub open spec fn jmps_ok(code: Seq<Meta2>) -> bool {
    forall|k: int|
        0 <= k < code.len() ==> ((#[trigger] code[k]) matches Meta2::Jmp(_, _, id, _) ==> declared(
            code,
            (id.id@, id.param),
        ))
}

/// The resolved instruction for one non-label node.
pub open spec fn resolve_op(code: Seq<Meta2>, m: Meta2) -> Op
    recommends
        !is_lab(m),
{
    match m {
        Meta2::Zer(r) => Op::Zero(r),
        Meta2::Inc(r) => Op::Inc(r),
        Meta2::Out(r) => Op::Out(r),
        Meta2::Mov(r1, r2) => Op::Mov(r1, r2),
        Meta2::Jmp(r1, r2, id, _) => Op::Jmp(r1, r2, label_pos(code, (id.id@, id.param)) as usize),
        Meta2::Lab(_, _) => Op::Zero(0),
    }
}

/// The assembled program: one resolved instruction per non-label node.
pub open spec fn assemble_spec(code: Seq<Meta2>) -> Seq<Op> {
    ops_only(code).map_values(|m: Meta2| resolve_op(code, m))
}

/// The first binding of a label identity in the address table.
pub open spec fn tbl_find(table: Seq<(MetaId, PosType)>, key: LabKey) -> Option<PosType>
    decreases table.len(),
{
    if table.len() == 0 {
        None
    } else if table.first().0.key() == key {
        Some(table.first().1)
    } else {
        tbl_find(table.drop_first(), key)
    }
}

/// Appending a fresh identity to the table resolves it and nothing else.
proof fn lemma_tbl_find_push(table: Seq<(MetaId, PosType)>, e: (MetaId, PosType), key: LabKey)
    ensures
        e.0.key() == key && tbl_find(table, key) is None ==> tbl_find(table.push(e), key) == Some(
            e.1,
        ),
        e.0.key() != key ==> tbl_find(table.push(e), key) == tbl_find(table, key),
    decreases table.len(),
{
    if table.len() == 0 {
        assert(table.push(e).first() == e);
        assert(table.push(e).drop_first() =~= Seq::<(MetaId, PosType)>::empty());
        assert(tbl_find(Seq::<(MetaId, PosType)>::empty(), key) is None);
        assert(tbl_find(table, key) is None);
    } else {
        lemma_tbl_find_push(table.drop_first(), e, key);
        assert(table.push(e).drop_first() =~= table.drop_first().push(e));
        assert(table.push(e).first() == table.first());
    }
}

/// Appending one node to a prefix advances the first-declaration search
/// only when the node declares a new identity.
proof fn lemma_find_lab_push(code: Seq<Meta2>, m: Meta2, key: LabKey)
    ensures
        find_lab(code, key) matches Some(i) ==> find_lab(code.push(m), key) == Some(i),
        find_lab(code, key) is None && is_lab(m) && meta2_lab_key(m) == key ==> find_lab(
            code.push(m),
            key,
        ) == Some(code.len() as int),
        find_lab(code, key) is None && !(is_lab(m) && meta2_lab_key(m) == key) ==> find_lab(
            code.push(m),
            key,
        ) is None,
    decreases code.len(),
{
    if code.len() == 0 {
        assert(code.push(m).first() == m);
        assert(code.push(m).drop_first() =~= Seq::<Meta2>::empty());
        assert(find_lab(Seq::<Meta2>::empty(), key) is None);
        assert(find_lab(code, key) is None);
    } else {
        lemma_find_lab_push(code.drop_first(), m, key);
        assert(code.push(m).drop_first() =~= code.drop_first().push(m));
        assert(code.push(m).first() == code.first());
    }
}

/// A declaration found in a prefix search really stands there.
proof fn lemma_find_lab_some(code: Seq<Meta2>, key: LabKey)
    requires
        find_lab(code, key) is Some,
    ensures
        0 <= find_lab(code, key)->0 < code.len(),
        is_lab(code[find_lab(code, key)->0]),
        meta2_lab_key(code[find_lab(code, key)->0]) == key,
    decreases code.len(),
{
    if !(is_lab(code.first()) && meta2_lab_key(code.first()) == key) {
        lemma_find_lab_some(code.drop_first(), key);
        let i = find_lab(code.drop_first(), key)->0;
        assert(code.drop_first()[i] == code[i + 1]);
    }
}

/// One step of the instruction counter.
proof fn lemma_op_count_step(code: Seq<Meta2>, k: int)
    requires
        0 <= k < code.len(),
    ensures
        op_count(code.take(k + 1)) == op_count(code.take(k)) + (if is_lab(code[k]) {
            0nat
        } else {
            1nat
        }),
        !is_lab(code[k]) ==> ops_only(code.take(k + 1)) == ops_only(code.take(k)).push(code[k]),
        is_lab(code[k]) ==> ops_only(code.take(k + 1)) == ops_only(code.take(k)),
{
    assert(code.take(k + 1).drop_last() =~= code.take(k));
    assert(code.take(k + 1).last() == code[k]);
}

/// The address table the first pass builds for a prefix: every identity
/// declared in the prefix is mapped to the instruction address of its
/// first declaration, and nothing else is mapped.
pub open spec fn table_matches(table: Seq<(MetaId, PosType)>, code: Seq<Meta2>, k: int) -> bool {
    forall|key: LabKey|
        #![trigger tbl_find(table, key)]
        tbl_find(table, key) == (match find_lab(code.take(k), key) {
            Some(i) => Some(op_count(code.take(i)) as PosType),
            None => None::<PosType>,
        })
}

/// Scan the address table for an identity.
fn id_lookup(table: &Vec<(MetaId, PosType)>, id: &MetaId) -> (r: Option<PosType>)
    ensures
        r == tbl_find(table@, (id.id@, id.param)),
{
    let mut j: usize = 0;
    proof {
        assert(table@.skip(0) =~= table@);
    }
    while j < table.len()
        invariant
            j <= table@.len(),
            tbl_find(table@, (id.id@, id.param)) == tbl_find(
                table@.skip(j as int),
                (id.id@, id.param),
            ),
        decreases table@.len() - j,
    {
        proof {
            assert(table@.skip(j as int).first() == table@[j as int]);
            assert(table@.skip(j as int).drop_first() =~= table@.skip(j as int + 1));
        }
        if table[j].0.eq_id(id) {
            return Some(table[j].1);
        }
        j += 1;
    }
    proof {
        assert(table@.skip(table@.len() as int) =~= Seq::<(MetaId, PosType)>::empty());
    }
    None
}

/// Resolve labels to absolute addresses in two passes.  The result is the
/// assembled instruction vector exactly when no label identity is
/// declared twice and every jump target is declared somewhere; otherwise
/// the first duplicate declaration, or else the first unresolvable jump,
/// is reported at its position.
pub fn meta2_to_vm(meta2: &CodeMeta2) -> (r: Result<Vec<Op>, CompileError>)
    ensures
        r is Ok <==> !has_dup(meta2@) && jmps_ok(meta2@),
        r matches Ok(v) ==> v@ == assemble_spec(meta2@),
        r matches Err(e) ==> (if has_dup(meta2@) {
            exists|j: int|
                {
                    &&& #[trigger] dup_at(meta2@, j)
                    &&& forall|i: int| 0 <= i < j ==> !dup_at(meta2@, i)
                    &&& meta2@[j] matches Meta2::Lab(id, pos) && e.kind == ErrorKind::LabelRedefined(
                        id.id,
                        id.param,
                    ) && e.pos == pos
                }
        } else {
            exists|k: int|
                {
                    &&& 0 <= k < meta2@.len()
                    &&& (#[trigger] meta2@[k]) matches Meta2::Jmp(_, _, id, pos) && !declared(
                        meta2@,
                        (id.id@, id.param),
                    ) && e.kind == ErrorKind::LabelNotFound(id.id, id.param) && e.pos == pos
                    &&& forall|i: int|
                        0 <= i < k ==> ((#[trigger] meta2@[i]) matches Meta2::Jmp(_, _, id2, _)
                            ==> declared(meta2@, (id2.id@, id2.param)))
                }
        }),
{
    let ghost code = meta2@;
    let mut labels: Vec<(MetaId, PosType)> = Vec::new();
    let mut op_pointer: PosType = 0;

    let mut k: usize = 0;
    proof {
        assert(code.take(0) =~= Seq::<Meta2>::empty());
    }
    while k < meta2.len()
        invariant
            code == meta2@,
            k <= code.len(),
            op_pointer == op_count(code.take(k as int)),
            op_pointer <= k,
            table_matches(labels@, code, k as int),
            forall|j: int| 0 <= j < k ==> !dup_at(code, j),
        decreases code.len() - k,
    {
        proof {
            lemma_op_count_step(code, k as int);
        }
        match &meta2[k] {
            Meta2::Lab(id, pos) => {
                let ghost key = (id.id@, id.param);
                match id_lookup(&labels, id) {
                    Some(_) => {
                        proof {
                            lemma_find_lab_some(code.take(k as int), key);
                            let i = find_lab(code.take(k as int), key)->0;
                            assert(code.take(k as int)[i] == code[i]);
                            assert(dup_at(code, k as int));
                            assert forall|i2: int| 0 <= i2 < k implies !dup_at(code, i2) by {}
                        }
                        return Err(
                            CompileError::new(
                                ErrorKind::LabelRedefined(id.id.clone(), id.param),
                                *pos,
                            ),
                        );
                    },
                    None => {
                        let ghost pre = labels@;
                        let entry = (id.duplicate(), op_pointer);
                        let ghost ge = entry;
                        labels.push(entry);
                        proof {
                            assert forall|key2: LabKey|
                                #![trigger tbl_find(labels@, key2)]
                                tbl_find(labels@, key2) == (match find_lab(
                                    code.take(k as int + 1),
                                    key2,
                                ) {
                                    Some(i) => Some(op_count(code.take(i)) as PosType),
                                    None => None::<PosType>,
                                }) by {
                                assert(labels@ =~= pre.push(ge));
                                lemma_tbl_find_push(pre, ge, key2);
                                assert(code.take(k as int + 1) =~= code.take(k as int).push(
                                    code[k as int],
                                ));
                                lemma_find_lab_push(code.take(k as int), code[k as int], key2);
                            }
                            // the new declaration repeats nothing
                            assert(!dup_at(code, k as int)) by {
                                if dup_at(code, k as int) {
                                    let i = choose|i: int|
                                        0 <= i < k && is_lab(#[trigger] code[i]) && meta2_lab_key(
                                            code[i],
                                        ) == meta2_lab_key(code[k as int]);
                                    lemma_declared_of_lab(code.take(k as int), i, key);
                                }
                            }
                        }
                    },
                }
            },
            _ => {
                op_pointer = op_pointer + 1;
                proof {
                    assert forall|key2: LabKey|
                        #![trigger tbl_find(labels@, key2)]
                        tbl_find(labels@, key2) == (match find_lab(code.take(k as int + 1), key2) {
                            Some(i) => Some(op_count(code.take(i)) as PosType),
                            None => None::<PosType>,
                        }) by {
                        assert(code.take(k as int + 1) =~= code.take(k as int).push(
                            code[k as int],
                        ));
                        lemma_find_lab_push(code.take(k as int), code[k as int], key2);
                    }
                    assert(!dup_at(code, k as int));
                }
            },
        }
        k += 1;
    }

    proof {
        assert(code.take(code.len() as int) =~= code);
        assert(!has_dup(code)) by {
            if has_dup(code) {
                let j = choose|j: int| dup_at(code, j);
            }
        }
    }

    let mut vec: Vec<Op> = Vec::new();
    let mut k2: usize = 0;
    while k2 < meta2.len()
        invariant
            code == meta2@,
            k2 <= code.len(),
            table_matches(labels@, code, code.len() as int),
            !has_dup(code),
            vec@ == ops_only(code.take(k2 as int)).map_values(|m: Meta2| resolve_op(code, m)),
            forall|i: int|
                0 <= i < k2 ==> ((#[trigger] code[i]) matches Meta2::Jmp(_, _, id2, _) ==> declared(
                    code,
                    (id2.id@, id2.param),
                )),
        decreases code.len() - k2,
    {
        proof {
            lemma_op_count_step(code, k2 as int);
        }
        let ghost prev = vec@;
        match &meta2[k2] {
            Meta2::Lab(_, _) => {},
            Meta2::Zer(r) => {
                vec.push(Op::Zero(*r));
            },
            Meta2::Inc(r) => {
                vec.push(Op::Inc(*r));
            },
            Meta2::Out(r) => {
                vec.push(Op::Out(*r));
            },
            Meta2::Mov(r1, r2) => {
                vec.push(Op::Mov(*r1, *r2));
            },
            Meta2::Jmp(r1, r2, id, pos) => {
                match id_lookup(&labels, id) {
                    Some(v) => {
                        vec.push(Op::Jmp(*r1, *r2, v));
                        proof {
                            assert(code.take(code.len() as int) =~= code);
                        }
                    },
                    None => {
                        proof {
                            assert(code.take(code.len() as int) =~= code);
                        }
                        return Err(
                            CompileError::new(
                                ErrorKind::LabelNotFound(id.id.clone(), id.param),
                                *pos,
                            ),
                        );
                    },
                }
            },
        }
        proof {
            assert(vec@ =~= ops_only(code.take(k2 as int + 1)).map_values(
                |m: Meta2| resolve_op(code, m),
            ));
        }
        k2 += 1;
    }
    proof {
        assert(code.take(code.len() as int) =~= code);
        assert(vec@ =~= assemble_spec(code));
    }
    Ok(vec)
}

/// The whole compiler front half: tokens to resolved instructions.
pub struct Parser {
    pub lexer: Lexer,
}

impl Parser {
    pub fn new(lexer: Lexer) -> (r: Self)
        ensures
            r.lexer == lexer,
    {
        Parser { lexer }
    }

    /// Parse and expand: the flat scope-qualified instruction sequence,
    /// before label resolution.  A successful result is the whole-program
    /// expansion, in a fresh environment, of a parse whose macro table
    /// binds each name once.
    pub fn parse_meta2(&mut self) -> (r: Result<CodeMeta2, CompileError>)
        requires
            lex_wf(old(self).lexer),
        ensures
            lex_wf(final(self).lexer),
            r matches Ok(code) ==> exists|res: ParsMetaResult, env0: Env, env1: Env|
                {
                    &&& al_unique(res.macros@)
                    &&& init_env(env0, res.macros@)
                    &&& #[trigger] node_list_rel(
                        env0,
                        env1,
                        PARAM_GLOBAL,
                        res.code@,
                        EXPANSION_DEPTH,
                        Ok(code@),
                    )
                },
    {
        let meta_res = match parse_to_meta(&mut self.lexer) {
            Ok(res) => res,
            Err(e) => {
                return Err(e);
            },
        };
        let ghost gres = meta_res;
        let r = to_meta2(meta_res.code, meta_res.macros);
        proof {
            if r is Ok {
                let (env0, env1) = choose|env0: Env, env1: Env|
                    init_env(env0, gres.macros@) && #[trigger] node_list_rel(
                        env0,
                        env1,
                        PARAM_GLOBAL,
                        gres.code@,
                        EXPANSION_DEPTH,
                        code_result_view(r),
                    );
                assert(node_list_rel(
                    env0,
                    env1,
                    PARAM_GLOBAL,
                    gres.code@,
                    EXPANSION_DEPTH,
                    Ok(r->Ok_0@),
                ));
            }
        }
        r
    }

    /// Parse, expand and assemble: the executable instruction vector.  A
    /// successful result is the assembly of this source's whole-program
    /// expansion, which has neither a duplicate label identity nor an
    /// unresolved jump target.
    pub fn parse(&mut self) -> (r: Result<Vec<Op>, CompileError>)
        requires
            lex_wf(old(self).lexer),
        ensures
            lex_wf(final(self).lexer),
            r matches Ok(v) ==> exists|res: ParsMetaResult, env0: Env, env1: Env, m2: Seq<Meta2>|
                {
                    &&& al_unique(res.macros@)
                    &&& init_env(env0, res.macros@)
                    &&& #[trigger] node_list_rel(
                        env0,
                        env1,
                        PARAM_GLOBAL,
                        res.code@,
                        EXPANSION_DEPTH,
                        Ok(m2),
                    )
                    &&& !has_dup(m2)
                    &&& jmps_ok(m2)
                    &&& v@ == assemble_spec(m2)
                },
    {
        let meta2 = match self.parse_meta2() {
            Ok(code) => code,
            Err(e) => {
                return Err(e);
            },
        };
        let ghost gm2 = meta2@;
        let r = meta2_to_vm(&meta2);
        proof {
            if r is Ok {
                let (res, env0, env1) = choose|res: ParsMetaResult, env0: Env, env1: Env|
                    al_unique(res.macros@) && init_env(env0, res.macros@)
                        && #[trigger] node_list_rel(
                        env0,
                        env1,
                        PARAM_GLOBAL,
                        res.code@,
                        EXPANSION_DEPTH,
                        Ok(gm2),
                    );
                assert(node_list_rel(env0, env1, PARAM_GLOBAL, res.code@, EXPANSION_DEPTH, Ok(gm2)));
            }
        }
        r
    }
}

/// A label standing at `i` makes its identity declared in any prefix that
/// holds it.
proof fn lemma_declared_of_lab(code: Seq<Meta2>, i: int, key: LabKey)
    requires
        0 <= i < code.len(),
        is_lab(code[i]),
        meta2_lab_key(code[i]) == key,
    ensures
        declared(code, key),
    decreases code.len(),
{
    if i == 0 {
    } else {
        lemma_declared_of_lab(code.drop_first(), i - 1, key);
        assert(code.drop_first()[i - 1] == code[i]);
    }
}

} // verus!
