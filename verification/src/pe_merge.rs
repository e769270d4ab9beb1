//! Merging the notations and coercions of one environment into another.

use crate::coe::Coe;
use crate::coercions::{
    add_all, add_coe_raw, edge_in_range, graph_in_range, graph_wf, prov_table, schedule,
    update_provs, Edge,
};
use crate::delims::Delims;
use crate::environment::Sort;
use crate::error::{
    error_views, push_error, push_note, quote, quoted, related_view, ElabError, ElabErrorView,
    IncompatibleError,
};
use crate::ids::{SortID, SortVec, TermID};
use crate::names::{first_key, keys_distinct, lemma_position_same_keys, position, NameMap};
use crate::parser_env::{
    add_const_entry, add_nota_info, add_prec_entry, assoc_admission, const_admission,
    nota_admission, Admission, Literal, NotaInfo, ParserEnv,
};
use crate::remap::{Remap, RemapView, Remapper};
use crate::syntax::{FileSpan, Prec, Span};
use vstd::prelude::*;
use vstd::string::*;

verus! {

/// Mathematical content of a notation.
pub struct NotaView {
    pub span: FileSpan,
    pub term: TermID,
    pub nargs: usize,
    pub rassoc: Option<bool>,
    pub lits: Seq<Literal>,
}

impl NotaInfo {
    pub open spec fn view(&self) -> NotaView {
        NotaView {
            span: self.span,
            term: self.term,
            nargs: self.nargs,
            rassoc: self.rassoc,
            lits: self.lits@,
        }
    }
}

/// The contents of the notations `m`.
pub open spec fn nota_views(m: Seq<(String, NotaInfo)>) -> Seq<(String, NotaView)> {
    Seq::new(m.len(), |i: int| (m[i].0, m[i].1@))
}

/// The members of the set `d`.
pub open spec fn delims_view(d: Delims) -> Set<u8> {
    Set::new(|c: u8| d.spec_get(c))
}

/// Mathematical content of a registry of notations and coercions.
pub struct PeState {
    pub delims_l: Set<u8>,
    pub delims_r: Set<u8>,
    pub consts: Seq<(String, (FileSpan, Prec))>,
    pub prec_assoc: Seq<(u32, (FileSpan, bool))>,
    pub prefixes: Seq<(String, NotaView)>,
    pub infixes: Seq<(String, NotaView)>,
    pub coes: Seq<Edge>,
    pub coe_prov: Seq<(SortID, SortID)>,
}

impl ParserEnv {
    pub open spec fn view(&self) -> PeState {
        PeState {
            delims_l: delims_view(self.delims_l),
            delims_r: delims_view(self.delims_r),
            consts: self.consts@,
            prec_assoc: self.prec_assoc@,
            prefixes: nota_views(self.prefixes@),
            infixes: nota_views(self.infixes@),
            coes: self.coes@,
            coe_prov: self.coe_prov@,
        }
    }
}

/// The text of the digit `d`.
pub open spec fn digit(d: nat) -> Seq<char> {
    if d == 0 {
        "0"@
    } else if d == 1 {
        "1"@
    } else if d == 2 {
        "2"@
    } else if d == 3 {
        "3"@
    } else if d == 4 {
        "4"@
    } else if d == 5 {
        "5"@
    } else if d == 6 {
        "6"@
    } else if d == 7 {
        "7"@
    } else if d == 8 {
        "8"@
    } else {
        "9"@
    }
}

/// The number `n` in decimal.
pub open spec fn decimal(n: nat) -> Seq<char>
    decreases n,
{
    if n < 10 {
        digit(n)
    } else {
        decimal(n / 10) + digit(n % 10)
    }
}

/// Appends the number `n` in decimal to `s`.
pub fn write_decimal(s: &mut String, n: u32)
    ensures
        final(s)@ == old(s)@ + decimal(n as nat),
    decreases n,
{
    if n >= 10 {
        write_decimal(s, n / 10);
    }
    let d: u32 = n % 10;
    if d == 0 {
        s.append("0");
    } else if d == 1 {
        s.append("1");
    } else if d == 2 {
        s.append("2");
    } else if d == 3 {
        s.append("3");
    } else if d == 4 {
        s.append("4");
    } else if d == 5 {
        s.append("5");
    } else if d == 6 {
        s.append("6");
    } else if d == 7 {
        s.append("7");
    } else if d == 8 {
        s.append("8");
    } else {
        s.append("9");
    }
    assert(s@ =~= old(s)@ + decimal(n as nat));
}

/// The error that two declarations raise that cannot both stand; each of
/// the two places gets its note.
pub open spec fn clash_error(
    sp: Span,
    msg: Seq<char>,
    e: IncompatibleError,
    note1: Seq<char>,
    note2: Seq<char>,
) -> ElabErrorView {
    ElabErrorView { pos: sp, msg, related: seq![(e.decl1, note1), (e.decl2, note2)] }
}

/// Builds the error of `clash_error`.
fn make_clash(sp: Span, msg: String, e: IncompatibleError, note1: &str, note2: &str) -> (r:
    ElabError)
    ensures
        r@ == clash_error(sp, msg@, e, note1@, note2@),
{
    let mut related: Vec<(FileSpan, String)> = Vec::new();
    push_note(&mut related, e.decl1, String::from_str(note1));
    push_note(&mut related, e.decl2, String::from_str(note2));
    proof {
        assert(related_view(related@) =~= seq![(e.decl1, note1@), (e.decl2, note2@)]);
    }
    ElabError::with_info(sp, msg, related)
}

/// The text that says that the level `p` is declared both ways.
pub open spec fn assoc_msg(p: u32) -> Seq<char> {
    "precedence level "@ + decimal(p as nat) + " has incompatible associativity"@
}

/// The constants `consts` and the errors `errors` after the constants
/// `other[k..]` were declared one by one.
pub open spec fn merge_consts(
    consts: Seq<(String, (FileSpan, Prec))>,
    errors: Seq<ElabErrorView>,
    other: Seq<(String, (FileSpan, Prec))>,
    sp: Span,
    k: nat,
) -> (Seq<(String, (FileSpan, Prec))>, Seq<ElabErrorView>)
    decreases other.len() - k,
{
    if k >= other.len() {
        (consts, errors)
    } else {
        let tk = other[k as int].0;
        let fsp = other[k as int].1.0;
        let p = other[k as int].1.1;
        match const_admission(consts, tk@, fsp, p) {
            Admission::Added => merge_consts(consts.push((tk, (fsp, p))), errors, other, sp, k + 1),
            Admission::Known => merge_consts(consts, errors, other, sp, k + 1),
            Admission::Clash(e) => merge_consts(
                consts,
                errors.push(
                    clash_error(
                        sp,
                        quoted("constant '"@, tk@, "' declared with two precedences"@),
                        e,
                        "declared here"@,
                        "declared here"@,
                    ),
                ),
                other,
                sp,
                k + 1,
            ),
        }
    }
}

/// The associativities `precs` and the errors `errors` after the
/// associativities `other[k..]` were declared one by one.
pub open spec fn merge_precs(
    precs: Seq<(u32, (FileSpan, bool))>,
    errors: Seq<ElabErrorView>,
    other: Seq<(u32, (FileSpan, bool))>,
    sp: Span,
    k: nat,
) -> (Seq<(u32, (FileSpan, bool))>, Seq<ElabErrorView>)
    decreases other.len() - k,
{
    if k >= other.len() {
        (precs, errors)
    } else {
        let p = other[k as int].0;
        let fsp = other[k as int].1.0;
        let r = other[k as int].1.1;
        match assoc_admission(precs, p, fsp, r) {
            Admission::Added => merge_precs(precs.push((p, (fsp, r))), errors, other, sp, k + 1),
            Admission::Known => merge_precs(precs, errors, other, sp, k + 1),
            Admission::Clash(e) => merge_precs(
                precs,
                errors.push(
                    clash_error(sp, assoc_msg(p), e, "left assoc here"@, "right assoc here"@),
                ),
                other,
                sp,
                k + 1,
            ),
        }
    }
}

/// The notation `n` with its term renumbered as `r` says.
pub open spec fn remap_nota(n: NotaView, r: RemapView) -> NotaView {
    NotaView { term: r.term_of(n.term), ..n }
}

/// What declaring a notation from the place `span` for the token `tk`
/// comes to.
pub open spec fn nota_view_admission(m: Seq<(String, NotaView)>, tk: Seq<char>, span: FileSpan) -> Admission {
    match position(m, tk) {
        None => Admission::Added,
        Some(i) => if m[i].1.span == span {
            Admission::Known
        } else {
            Admission::Clash(IncompatibleError { decl1: m[i].1.span, decl2: span })
        },
    }
}

/// The notations `m` and the errors `errors` after the notations
/// `other[k..]` were declared one by one, each renumbered as `r` says.
pub open spec fn merge_notas(
    m: Seq<(String, NotaView)>,
    errors: Seq<ElabErrorView>,
    other: Seq<(String, NotaView)>,
    r: RemapView,
    sp: Span,
    k: nat,
) -> (Seq<(String, NotaView)>, Seq<ElabErrorView>)
    decreases other.len() - k,
{
    if k >= other.len() {
        (m, errors)
    } else {
        let tk = other[k as int].0;
        let n = remap_nota(other[k as int].1, r);
        match nota_view_admission(m, tk@, n.span) {
            Admission::Added => merge_notas(m.push((tk, n)), errors, other, r, sp, k + 1),
            Admission::Known => merge_notas(m, errors, other, r, sp, k + 1),
            Admission::Clash(e) => merge_notas(
                m,
                errors.push(
                    clash_error(
                        sp,
                        quoted("constant '"@, tk@, "' declared twice"@),
                        e,
                        "declared here"@,
                        "declared here"@,
                    ),
                ),
                other,
                r,
                sp,
                k + 1,
            ),
        }
    }
}

/// The graph `coes` and the errors `errors` after the declared steps among
/// `other[k..]` were added one by one, each with its term renumbered as
/// `r` says and with the compositions that it asks for. A step that
/// closes a cycle or a diamond is noted, with what was added of it.
pub open spec fn merge_coes(
    coes: Seq<Edge>,
    errors: Seq<ElabErrorView>,
    other: Seq<Edge>,
    sorts: Seq<Sort>,
    r: RemapView,
    sp: Span,
    k: nat,
) -> (Seq<Edge>, Seq<ElabErrorView>)
    decreases other.len() - k,
{
    if k >= other.len() {
        (coes, errors)
    } else {
        match other[k as int].1 {
            Coe::One(fsp, t) => {
                let s1 = other[k as int].0.0;
                let s2 = other[k as int].0.1;
                let res = add_all(
                    coes,
                    sorts,
                    sp,
                    schedule(coes, s1, s2, Coe::One(fsp, r.term_of(t))),
                    0,
                );
                merge_coes(
                    res.0,
                    match res.1 {
                        Some(ev) => errors.push(ev),
                        None => errors,
                    },
                    other,
                    sorts,
                    r,
                    sp,
                    k + 1,
                )
            },
            Coe::Trans(_, _, _) => merge_coes(coes, errors, other, sorts, r, sp, k + 1),
        }
    }
}

/// The registry `pe` and the errors `errors` after the registry `other`
/// was merged into it: the delimiters are united; the constants, the
/// associativities, the prefix and the infix notations and the declared
/// coercions of `other` are declared in `pe` in this order, and what
/// clashes is noted; at last the table of provable targets is built
/// anew, unless a sort has two, which is noted.
pub open spec fn merge_pe(
    pe: PeState,
    errors: Seq<ElabErrorView>,
    other: PeState,
    sorts: Seq<Sort>,
    r: RemapView,
    sp: Span,
) -> (PeState, Seq<ElabErrorView>) {
    let c = merge_consts(pe.consts, errors, other.consts, sp, 0);
    let p = merge_precs(pe.prec_assoc, c.1, other.prec_assoc, sp, 0);
    let pre = merge_notas(pe.prefixes, p.1, other.prefixes, r, sp, 0);
    let inf = merge_notas(pe.infixes, pre.1, other.infixes, r, sp, 0);
    let g = merge_coes(pe.coes, inf.1, other.coes, sorts, r, sp, 0);
    let provs = prov_table(g.0, sorts, sp);
    (
        PeState {
            delims_l: pe.delims_l.union(other.delims_l),
            delims_r: pe.delims_r.union(other.delims_r),
            consts: c.0,
            prec_assoc: p.0,
            prefixes: pre.0,
            infixes: inf.0,
            coes: g.0,
            coe_prov: match provs {
                Ok(t) => t,
                Err(_) => pe.coe_prov,
            },
        },
        match provs {
            Ok(_) => g.1,
            Err(ev) => g.1.push(ev),
        },
    )
}

fn merge_const_entries(
    consts: &mut NameMap<(FileSpan, Prec)>,
    other: &NameMap<(FileSpan, Prec)>,
    sp: Span,
    errors: &mut Vec<ElabError>,
)
    requires
        old(consts).wf(),
    ensures
        final(consts).wf(),
        (final(consts)@, error_views(final(errors)@)) == merge_consts(
            old(consts)@,
            error_views(old(errors)@),
            other@,
            sp,
            0,
        ),
{
    let mut k: usize = 0;
    while k < other.entries.len()
        invariant
            0 <= k <= other@.len(),
            consts.wf(),
            merge_consts(old(consts)@, error_views(old(errors)@), other@, sp, 0) == merge_consts(
                consts@,
                error_views(errors@),
                other@,
                sp,
                k as nat,
            ),
        decreases other@.len() - k,
    {
        let tk: &String = &other.entries[k].0;
        let fsp: FileSpan = other.entries[k].1.0;
        let p: Prec = other.entries[k].1.1;
        match add_const_entry(consts, tk.clone(), fsp, p) {
            Ok(()) => {},
            Err(e) => {
                let msg = quote("constant '", tk, "' declared with two precedences");
                push_error(errors, make_clash(sp, msg, e, "declared here", "declared here"));
            },
        }
        k += 1;
    }
}

fn merge_prec_entries(
    precs: &mut Vec<(u32, (FileSpan, bool))>,
    other: &Vec<(u32, (FileSpan, bool))>,
    sp: Span,
    errors: &mut Vec<ElabError>,
)
    requires
        keys_distinct(old(precs)@),
    ensures
        keys_distinct(final(precs)@),
        (final(precs)@, error_views(final(errors)@)) == merge_precs(
            old(precs)@,
            error_views(old(errors)@),
            other@,
            sp,
            0,
        ),
{
    let mut k: usize = 0;
    while k < other.len()
        invariant
            0 <= k <= other@.len(),
            keys_distinct(precs@),
            merge_precs(old(precs)@, error_views(old(errors)@), other@, sp, 0) == merge_precs(
                precs@,
                error_views(errors@),
                other@,
                sp,
                k as nat,
            ),
        decreases other@.len() - k,
    {
        let p: u32 = other[k].0;
        let fsp: FileSpan = other[k].1.0;
        let r: bool = other[k].1.1;
        match add_prec_entry(precs, p, fsp, r) {
            Ok(()) => {},
            Err(e) => {
                let mut msg = String::from_str("precedence level ");
                write_decimal(&mut msg, p);
                msg.append(" has incompatible associativity");
                push_error(errors, make_clash(sp, msg, e, "left assoc here", "right assoc here"));
            },
        }
        k += 1;
    }
}

/// A notation added to a dictionary is added to its contents.
proof fn lemma_nota_views_push(m: Seq<(String, NotaInfo)>, tk: String, n: NotaInfo)
    ensures
        nota_views(m.push((tk, n))) == nota_views(m).push((tk, n@)),
{
    assert(nota_views(m.push((tk, n))) =~= nota_views(m).push((tk, n@)));
}

fn merge_nota_entries(
    m: &mut NameMap<NotaInfo>,
    other: &NameMap<NotaInfo>,
    r: &Remapper,
    sp: Span,
    errors: &mut Vec<ElabError>,
)
    requires
        old(m).wf(),
    ensures
        final(m).wf(),
        (nota_views(final(m)@), error_views(final(errors)@)) == merge_notas(
            nota_views(old(m)@),
            error_views(old(errors)@),
            nota_views(other@),
            r@,
            sp,
            0,
        ),
{
    let mut k: usize = 0;
    while k < other.entries.len()
        invariant
            0 <= k <= other@.len(),
            m.wf(),
            merge_notas(
                nota_views(old(m)@),
                error_views(old(errors)@),
                nota_views(other@),
                r@,
                sp,
                0,
            ) == merge_notas(
                nota_views(m@),
                error_views(errors@),
                nota_views(other@),
                r@,
                sp,
                k as nat,
            ),
        decreases other@.len() - k,
    {
        let tk: &String = &other.entries[k].0;
        let n: NotaInfo = other.entries[k].1.remap(r);
        proof {
            assert(n@ == remap_nota(other@[k as int].1@, r@)) by {
                let a = other@[k as int].1;
                assert(a.lits.remaps_to(r, &n.lits));
                assert forall|i: int| 0 <= i < a.lits@.len() implies a.lits@[i] == n.lits@[i] by {
                    assert(a.lits@[i].remaps_to(r, &n.lits@[i]));
                }
                assert(n.lits@ =~= a.lits@);
            }
            lemma_position_same_keys(m@, nota_views(m@), tk@);
            lemma_nota_views_push(m@, *tk, n);
            crate::names::lemma_position(m@, tk@);
            assert(nota_views(other@)[k as int] == (other@[k as int].0, other@[k as int].1@));
            match position(m@, tk@) {
                Some(i) => {
                    assert(nota_views(m@)[i].1.span == m@[i].1.span);
                },
                None => {},
            }
            assert(nota_admission(m@, tk@, n) == nota_view_admission(
                nota_views(m@),
                tk@,
                n.span,
            ));
        }
        match add_nota_info(m, tk.clone(), n) {
            Ok(()) => {},
            Err(e) => {
                let msg = quote("constant '", tk, "' declared twice");
                push_error(errors, make_clash(sp, msg, e, "declared here", "declared here"));
            },
        }
        k += 1;
    }
}

fn merge_coe_entries(
    coes: &mut Vec<Edge>,
    other: &Vec<Edge>,
    sorts: &SortVec<Sort>,
    r: &Remapper,
    sp: Span,
    errors: &mut Vec<ElabError>,
)
    requires
        graph_in_range(old(coes)@, sorts@.len()),
        graph_in_range(other@, sorts@.len()),
    ensures
        graph_in_range(final(coes)@, sorts@.len()),
        graph_wf(old(coes)@) ==> graph_wf(final(coes)@),
        (final(coes)@, error_views(final(errors)@)) == merge_coes(
            old(coes)@,
            error_views(old(errors)@),
            other@,
            sorts@,
            r@,
            sp,
            0,
        ),
{
    let mut k: usize = 0;
    while k < other.len()
        invariant
            0 <= k <= other@.len(),
            graph_in_range(coes@, sorts@.len()),
            graph_in_range(other@, sorts@.len()),
            graph_wf(old(coes)@) ==> graph_wf(coes@),
            merge_coes(old(coes)@, error_views(old(errors)@), other@, sorts@, r@, sp, 0)
                == merge_coes(coes@, error_views(errors@), other@, sorts@, r@, sp, k as nat),
        decreases other@.len() - k,
    {
        assert(edge_in_range(other@[k as int], sorts@.len()));
        match &other[k].1 {
            Coe::One(fsp, t) => {
                let s1: SortID = other[k].0.0;
                let s2: SortID = other[k].0.1;
                match add_coe_raw(coes, sp, sorts, s1, s2, *fsp, t.remap(r)) {
                    Ok(()) => {},
                    Err(e) => {
                        push_error(errors, e);
                    },
                }
            },
            Coe::Trans(_, _, _) => {},
        }
        k += 1;
    }
}

impl ParserEnv {
    /// Merges the registry `other` into this one, and adds what clashes to
    /// `errors`. The terms that `other` refers to are renumbered as `r`
    /// says; `sorts` are the sorts of the environment of this registry.
    pub fn merge(
        &mut self,
        other: &ParserEnv,
        r: &Remapper,
        sp: Span,
        sorts: &SortVec<Sort>,
        errors: &mut Vec<ElabError>,
    )
        requires
            old(self).wf(),
            graph_in_range(old(self).coes@, sorts@.len()),
            graph_in_range(other.coes@, sorts@.len()),
        ensures
            final(self).wf(),
            graph_in_range(final(self).coes@, sorts@.len()),
            (final(self)@, error_views(final(errors)@)) == merge_pe(
                old(self)@,
                error_views(old(errors)@),
                other@,
                sorts@,
                r@,
                sp,
            ),
    {
        self.delims_l.merge(&other.delims_l);
        self.delims_r.merge(&other.delims_r);
        proof {
            assert(delims_view(self.delims_l) =~= delims_view(old(self).delims_l).union(
                delims_view(other.delims_l),
            ));
            assert(delims_view(self.delims_r) =~= delims_view(old(self).delims_r).union(
                delims_view(other.delims_r),
            ));
        }
        merge_const_entries(&mut self.consts, &other.consts, sp, errors);
        merge_prec_entries(&mut self.prec_assoc, &other.prec_assoc, sp, errors);
        merge_nota_entries(&mut self.prefixes, &other.prefixes, r, sp, errors);
        merge_nota_entries(&mut self.infixes, &other.infixes, r, sp, errors);
        merge_coe_entries(&mut self.coes, &other.coes, sorts, r, sp, errors);
        match update_provs(&self.coes, &mut self.coe_prov, sp, sorts) {
            Ok(()) => {},
            Err(e) => {
                push_error(errors, e);
            },
        }
    }
}

} // verus!
