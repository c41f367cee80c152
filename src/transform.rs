//! Recognising member-access chains on the reserved root and rewriting them.
use vstd::prelude::*;
use crate::classmap::{ClassMap, Config, resolve, walk};

verus! {

/// The identifier that, where it is not shadowed, starts a chain.
pub const ROOT_NAME: &'static str = "CLASSMAP";

/// The property of a member access: a plain name, or anything else
/// (a computed or private property).
#[derive(Debug)]
pub enum MemberProp {
    Ident(String),
    Other,
}

/// The shape of an expression, as far as the rewrite reads it.
///
/// An identifier carries its scope mark; a call or a binary operation carries
/// its operands; every other form is `Other`.
#[derive(Debug)]
pub enum Expr {
    Ident { sym: String, ctxt: u32 },
    Member { obj: Box<Expr>, prop: MemberProp },
    Lit(String),
    Call { callee: Box<Expr>, args: Vec<Expr> },
    Bin { left: Box<Expr>, right: Box<Expr> },
    Other,
}

/// The rewrite for one compilation unit: the table, and the scope mark of
/// identifiers that resolve to no local binding.
#[derive(Debug)]
pub struct Transform {
    pub config: Config,
    pub unresolved_ctx: u32,
}

/// The names of the plain property accesses at the top of `e`, left to right.
pub open spec fn member_names(e: Expr) -> Seq<Seq<char>>
    decreases e,
{
    match e {
        Expr::Member { obj, prop: MemberProp::Ident(name) } => member_names(*obj).push(name@),
        _ => Seq::empty(),
    }
}

/// The expression that the plain property accesses at the top of `e` are applied to.
pub open spec fn chain_base(e: Expr) -> Expr
    decreases e,
{
    match e {
        Expr::Member { obj, prop: MemberProp::Ident(_) } => chain_base(*obj),
        _ => e,
    }
}

/// `e` is an occurrence of the reserved root that no local binding shadows.
pub open spec fn is_reserved_root(e: Expr, mark: u32) -> bool {
    e matches Expr::Ident { sym, ctxt } && sym@ == ROOT_NAME@ && ctxt == mark
}

/// The string that `e` is replaced by: `e` must be a chain of plain property
/// accesses on the unshadowed root, and its names must lead to a leaf.
pub open spec fn rewrite(cm: ClassMap, mark: u32, e: Expr) -> Option<String> {
    if is_reserved_root(chain_base(e), mark) {
        resolve(cm, member_names(e))
    } else {
        None
    }
}

/// What an expression statement holds after the rewrite.
pub open spec fn after_rewrite(cm: ClassMap, mark: u32, e: Expr) -> Expr {
    match rewrite(cm, mark, e) {
        Some(s) => Expr::Lit(s),
        None => e,
    }
}

/// `s` in the opposite order.
pub open spec fn reversed(s: Seq<Seq<char>>) -> Seq<Seq<char>> {
    Seq::new(s.len(), |i: int| s[s.len() - 1 - i])
}

/// The views of a sequence of strings.
pub open spec fn names_of(v: Seq<String>) -> Seq<Seq<char>> {
    v.map_values(|s: String| s@)
}

impl Transform {
    /// Walks `expr` from its last property access towards its base, pushing
    /// each plain property name onto `idents`; at the base, looks up the names
    /// gathered so far, taken in source order.
    fn apply_classmap_rtl_recur(&self, expr: &Expr, idents: &mut Vec<String>) -> (r: Option<String>)
        ensures
            names_of(final(idents)@) == names_of(old(idents)@) + reversed(member_names(*expr)),
            r == (if is_reserved_root(chain_base(*expr), self.unresolved_ctx) {
                resolve(self.config.classmap, member_names(*expr) + reversed(names_of(old(idents)@)))
            } else {
                None
            }),
        decreases expr,
    {
        match expr {
            Expr::Ident { sym, ctxt } => {
                if !(*sym == ROOT_NAME.to_owned()) || *ctxt != self.unresolved_ctx {
                    return None;
                }
                let ghost path = reversed(names_of(idents@));
                let n = idents.len();
                let mut cur: Option<&ClassMap> = Some(&self.config.classmap);
                let mut k: usize = 0;
                proof {
                    assert(path.subrange(0, 0) =~= Seq::<Seq<char>>::empty());
                }
                while k < n
                    invariant
                        n == idents.len(),
                        path == reversed(names_of(idents@)),
                        0 <= k <= n,
                        match cur {
                            Some(c) => walk(self.config.classmap, path.subrange(0, k as int)) == Some(*c),
                            None => walk(self.config.classmap, path.subrange(0, k as int)) is None,
                        },
                    decreases n - k,
                {
                    let name = &idents[n - 1 - k];
                    proof {
                        let next = path.subrange(0, k + 1);
                        assert(next.drop_last() =~= path.subrange(0, k as int));
                        assert(next.last() == name@);
                    }
                    cur = match cur {
                        Some(c) => c.get(name),
                        None => None,
                    };
                    k = k + 1;
                }
                proof {
                    assert(path.subrange(0, n as int) =~= path);
                    assert(member_names(*expr) + path =~= path);
                }
                match cur {
                    Some(ClassMap::Str(s)) => Some(s.clone()),
                    _ => None,
                }
            },
            Expr::Member { obj, prop } => match prop {
                MemberProp::Ident(name) => {
                    let ghost before = idents@;
                    idents.push(name.clone());
                    proof {
                        assert(names_of(idents@) =~= names_of(before).push(name@));
                    }
                    let r = self.apply_classmap_rtl_recur(&**obj, idents);
                    proof {
                        let inner = member_names(**obj);
                        assert(member_names(*expr) == inner.push(name@));
                        assert(reversed(inner.push(name@)) =~= seq![name@] + reversed(inner));
                        assert(names_of(before).push(name@) + reversed(inner) =~= names_of(before) + (seq![name@] + reversed(inner)));
                        assert(reversed(names_of(before).push(name@)) =~= seq![name@] + reversed(names_of(before)));
                        assert(inner + (seq![name@] + reversed(names_of(before))) =~= inner.push(name@) + reversed(names_of(before)));
                    }
                    r
                },
                MemberProp::Other => None,
            },
            _ => None,
        }
    }

    /// The string literal that replaces `expr`, if `expr` is a chain on the
    /// unshadowed root whose names lead to a leaf of the table.
    pub fn apply_classmap(&self, expr: &Expr) -> (r: Option<Expr>)
        ensures
            match rewrite(self.config.classmap, self.unresolved_ctx, *expr) {
                Some(s) => r == Some(Expr::Lit(s)),
                None => r is None,
            },
    {
        let mut idents: Vec<String> = Vec::new();
        proof {
            assert(reversed(names_of(idents@)) =~= Seq::<Seq<char>>::empty());
            assert(member_names(*expr) + reversed(names_of(idents@)) =~= member_names(*expr));
        }
        match self.apply_classmap_rtl_recur(expr, &mut idents) {
            Some(s) => Some(Expr::Lit(s)),
            None => None,
        }
    }
}

/// The rewrite settles in one pass: what an expression statement holds after
/// the rewrite is never rewritten again, and an expression that is not
/// rewritten is kept exactly as it was.
pub proof fn lemma_rewrite_idempotent(cm: ClassMap, mark: u32, e: Expr)
    ensures
        rewrite(cm, mark, e) is None ==> after_rewrite(cm, mark, e) == e,
        rewrite(cm, mark, after_rewrite(cm, mark, e)) is None,
        after_rewrite(cm, mark, after_rewrite(cm, mark, e)) == after_rewrite(cm, mark, e),
{
}

/// A chain on the unshadowed root is replaced by the leaf that its names lead
/// to, and is kept when they lead to a level or to no entry at all.
pub proof fn lemma_rewrite_follows_table(cm: ClassMap, mark: u32, e: Expr)
    requires
        is_reserved_root(chain_base(e), mark),
    ensures
        forall|s: String|
            walk(cm, member_names(e)) == Some(ClassMap::Str(s)) ==> rewrite(cm, mark, e) == Some(s),
        walk(cm, member_names(e)) matches Some(ClassMap::Node(_)) ==> rewrite(cm, mark, e) is None,
        walk(cm, member_names(e)) is None ==> rewrite(cm, mark, e) is None,
{
}

/// A chain whose base identifier carries another scope mark than that of
/// unresolved identifiers (a local binding of the same name) is never
/// rewritten, whatever the table holds.
pub proof fn lemma_shadowed_root_untouched(cm: ClassMap, mark: u32, e: Expr)
    requires
        chain_base(e) matches Expr::Ident { ctxt, .. } && ctxt != mark,
    ensures
        rewrite(cm, mark, e) is None,
        after_rewrite(cm, mark, e) == e,
{
}

/// A call or a binary operation is never rewritten, whatever chains its
/// operands hold: only a chain that is a statement's whole expression is.
pub proof fn lemma_nested_chain_untouched(cm: ClassMap, mark: u32, e: Expr)
    requires
        e is Call || e is Bin,
    ensures
        rewrite(cm, mark, e) is None,
        after_rewrite(cm, mark, e) == e,
{
}

} // verus!
