//! Reading the `stage-manager` section of a KDL configuration.
//!
//! `layout { stage-manager { .. } }` sections are read from the document in order; a later one
//! replaces an earlier one. Numbers are read exactly from their decimal text (see
//! [`crate::decimal`]) and held in millionths.

use vstd::prelude::*;
use crate::config::{StackPosition, StageManagerConfig, StageManagerPart, UNIT, stage_manager_from_part_spec};
use crate::kdl::{
    KdlLiteral, KdlSpannedNode, KdlValue, LiteralView, NodeView, kdl_arg, kdl_arg_count, kdl_children,
    kdl_document, kdl_node, kdl_node_name, kdl_prop_count, parse_kdl,
};
use vstd::string::StrSliceExecFns;
use crate::decimal::{decimal_in_range, decimal_value};

verus! {

/// Why a configuration was refused.
#[derive(Debug, Clone, Copy, PartialEq, Eq, Structural)]
pub enum ConfigError {
    /// The text is not valid KDL.
    Syntax,
    /// A node or value of a section is not what the section accepts.
    Invalid,
}

// ---------------------------------------------------------------------------------------------
// Numbers.

pub open spec fn debug_prefix() -> Seq<char> {
    seq!['D', 'e', 'c', 'i', 'm', 'a', 'l', '(', '"']
}

pub open spec fn debug_suffix() -> Seq<char> {
    seq!['"', ')']
}

/// The number text inside `Decimal("..")`.
pub open spec fn decimal_text(d: Seq<char>) -> Option<Seq<char>> {
    if d.len() >= 11 && d.take(9) == debug_prefix() && d.skip(d.len() - 2) == debug_suffix() {
        Some(d.subrange(9, d.len() - 2))
    } else {
        None
    }
}

/// A number node value in `[lo, hi]`, in millionths.
pub open spec fn number_micros(l: LiteralView, lo: int, hi: int) -> Option<i64> {
    match l {
        LiteralView::Int(Some(v)) => if lo <= v <= hi {
            Some((v * UNIT) as i64)
        } else {
            None
        },
        LiteralView::Decimal(d) => match decimal_text(d) {
            Some(t) => match decimal_in_range(t, lo, hi) {
                Some(m) => Some(m as i64),
                None => None,
            },
            None => None,
        },
        _ => None,
    }
}

/// The characters of `s`.
fn chars_of(s: &str) -> (r: Vec<char>)
    ensures
        r@ == s@,
{
    let n = s.unicode_len();
    let mut out: Vec<char> = Vec::new();
    let mut i: usize = 0;
    while i < n
        invariant
            n == s@.len(),
            i <= n,
            out@ == s@.take(i as int),
        decreases n - i,
    {
        out.push(s.get_char(i));
        proof {
            assert(out@ =~= s@.take(i + 1));
        }
        i += 1;
    }
    proof {
        assert(s@.take(n as int) =~= s@);
    }
    out
}

// ---------------------------------------------------------------------------------------------
// Node and value names.

/// The word `layout`.
pub open spec fn word_layout() -> Seq<char> {
    seq!['l', 'a', 'y', 'o', 'u', 't']
}

fn make_word_layout() -> (r: Vec<char>)
    ensures
        r@ == word_layout(),
{
    vec!['l', 'a', 'y', 'o', 'u', 't']
}

/// The word `stage-manager`.
pub open spec fn word_stage_manager() -> Seq<char> {
    seq!['s', 't', 'a', 'g', 'e', '-', 'm', 'a', 'n', 'a', 'g', 'e', 'r']
}

fn make_word_stage_manager() -> (r: Vec<char>)
    ensures
        r@ == word_stage_manager(),
{
    vec!['s', 't', 'a', 'g', 'e', '-', 'm', 'a', 'n', 'a', 'g', 'e', 'r']
}

/// The word `stack-position`.
pub open spec fn word_stack_position() -> Seq<char> {
    seq!['s', 't', 'a', 'c', 'k', '-', 'p', 'o', 's', 'i', 't', 'i', 'o', 'n']
}

fn make_word_stack_position() -> (r: Vec<char>)
    ensures
        r@ == word_stack_position(),
{
    vec!['s', 't', 'a', 'c', 'k', '-', 'p', 'o', 's', 'i', 't', 'i', 'o', 'n']
}

/// The word `proportion`.
pub open spec fn word_proportion() -> Seq<char> {
    seq!['p', 'r', 'o', 'p', 'o', 'r', 't', 'i', 'o', 'n']
}

fn make_word_proportion() -> (r: Vec<char>)
    ensures
        r@ == word_proportion(),
{
    vec!['p', 'r', 'o', 'p', 'o', 'r', 't', 'i', 'o', 'n']
}

/// The word `max-cast-groups`.
pub open spec fn word_max_cast_groups() -> Seq<char> {
    seq!['m', 'a', 'x', '-', 'c', 'a', 's', 't', '-', 'g', 'r', 'o', 'u', 'p', 's']
}

fn make_word_max_cast_groups() -> (r: Vec<char>)
    ensures
        r@ == word_max_cast_groups(),
{
    vec!['m', 'a', 'x', '-', 'c', 'a', 's', 't', '-', 'g', 'r', 'o', 'u', 'p', 's']
}

/// The word `thumb-scale`.
pub open spec fn word_thumb_scale() -> Seq<char> {
    seq!['t', 'h', 'u', 'm', 'b', '-', 's', 'c', 'a', 'l', 'e']
}

fn make_word_thumb_scale() -> (r: Vec<char>)
    ensures
        r@ == word_thumb_scale(),
{
    vec!['t', 'h', 'u', 'm', 'b', '-', 's', 'c', 'a', 'l', 'e']
}

/// The word `stack-by-app`.
pub open spec fn word_stack_by_app() -> Seq<char> {
    seq!['s', 't', 'a', 'c', 'k', '-', 'b', 'y', '-', 'a', 'p', 'p']
}

fn make_word_stack_by_app() -> (r: Vec<char>)
    ensures
        r@ == word_stack_by_app(),
{
    vec!['s', 't', 'a', 'c', 'k', '-', 'b', 'y', '-', 'a', 'p', 'p']
}

/// The word `auto-use-as-main`.
pub open spec fn word_auto_use_as_main() -> Seq<char> {
    seq!['a', 'u', 't', 'o', '-', 'u', 's', 'e', '-', 'a', 's', '-', 'm', 'a', 'i', 'n']
}

fn make_word_auto_use_as_main() -> (r: Vec<char>)
    ensures
        r@ == word_auto_use_as_main(),
{
    vec!['a', 'u', 't', 'o', '-', 'u', 's', 'e', '-', 'a', 's', '-', 'm', 'a', 'i', 'n']
}

/// The word `auto-use-as-main-delay-ms`.
pub open spec fn word_auto_use_as_main_delay_ms() -> Seq<char> {
    seq!['a', 'u', 't', 'o', '-', 'u', 's', 'e', '-', 'a', 's', '-', 'm', 'a', 'i', 'n', '-', 'd', 'e', 'l', 'a', 'y', '-', 'm', 's']
}

fn make_word_auto_use_as_main_delay_ms() -> (r: Vec<char>)
    ensures
        r@ == word_auto_use_as_main_delay_ms(),
{
    vec!['a', 'u', 't', 'o', '-', 'u', 's', 'e', '-', 'a', 's', '-', 'm', 'a', 'i', 'n', '-', 'd', 'e', 'l', 'a', 'y', '-', 'm', 's']
}

/// The word `left`.
pub open spec fn word_left() -> Seq<char> {
    seq!['l', 'e', 'f', 't']
}

fn make_word_left() -> (r: Vec<char>)
    ensures
        r@ == word_left(),
{
    vec!['l', 'e', 'f', 't']
}

/// The word `right`.
pub open spec fn word_right() -> Seq<char> {
    seq!['r', 'i', 'g', 'h', 't']
}

fn make_word_right() -> (r: Vec<char>)
    ensures
        r@ == word_right(),
{
    vec!['r', 'i', 'g', 'h', 't']
}

/// The word `top`.
pub open spec fn word_top() -> Seq<char> {
    seq!['t', 'o', 'p']
}

fn make_word_top() -> (r: Vec<char>)
    ensures
        r@ == word_top(),
{
    vec!['t', 'o', 'p']
}

/// The word `bottom`.
pub open spec fn word_bottom() -> Seq<char> {
    seq!['b', 'o', 't', 't', 'o', 'm']
}

fn make_word_bottom() -> (r: Vec<char>)
    ensures
        r@ == word_bottom(),
{
    vec!['b', 'o', 't', 't', 'o', 'm']
}


/// Whether two character sequences are the same.
fn same_chars(a: &Vec<char>, b: &Vec<char>) -> (r: bool)
    ensures
        r == (a@ == b@),
{
    if a.len() != b.len() {
        return false;
    }
    let mut i: usize = 0;
    while i < a.len()
        invariant
            a@.len() == b@.len(),
            i <= a@.len(),
            forall|j: int| 0 <= j < i ==> a@[j] == b@[j],
        decreases a@.len() - i,
    {
        if a[i] != b[i] {
            return false;
        }
        i += 1;
    }
    proof {
        assert(a@ =~= b@);
    }
    true
}

/// Whether `name` reads `word`.
fn name_is(name: &Vec<char>, word: Vec<char>) -> (r: bool)
    ensures
        r == (name@ == word@),
{
    same_chars(name, &word)
}

// ---------------------------------------------------------------------------------------------
// Node values.

/// The value of a node that holds exactly one argument and nothing else.
pub open spec fn single_arg(n: NodeView) -> Option<LiteralView> {
    if n.args.len() == 1 && n.props == 0 && n.children.len() == 0 {
        Some(n.args[0].literal)
    } else {
        None
    }
}

/// A `stack-position` value: one of the strings `left`, `right`, `top`, `bottom`.
pub open spec fn position_of(l: LiteralView) -> Option<StackPosition> {
    match l {
        LiteralView::Str(s) => if s == word_left() {
            Some(StackPosition::Left)
        } else if s == word_right() {
            Some(StackPosition::Right)
        } else if s == word_top() {
            Some(StackPosition::Top)
        } else if s == word_bottom() {
            Some(StackPosition::Bottom)
        } else {
            None
        },
        _ => None,
    }
}

/// A flag node: `true` without an argument, else its one boolean argument; no properties
/// and no children.
pub open spec fn flag_of(n: NodeView) -> Option<bool> {
    if n.props != 0 || n.children.len() != 0 || n.args.len() > 1 {
        None
    } else if n.args.len() == 0 {
        Some(true)
    } else {
        match n.args[0].literal {
            LiteralView::Bool(b) => Some(b),
            _ => None,
        }
    }
}

/// A node holding one number in `[lo, hi]`, in millionths.
pub open spec fn number_of(n: NodeView, lo: int, hi: int) -> Option<i64> {
    match single_arg(n) {
        Some(l) => number_micros(l, lo, hi),
        None => None,
    }
}

fn single_arg_of(n: &KdlSpannedNode) -> (r: Option<KdlValue>)
    ensures
        match single_arg(kdl_node(*n)) {
            Some(l) => r is Some && r->0@.literal == l,
            None => r is None,
        },
{
    if kdl_arg_count(n) == 1 && kdl_prop_count(n) == 0 && kdl_children(n).len() == 0 {
        Some(kdl_arg(n, 0))
    } else {
        None
    }
}

fn position_value(v: &KdlValue) -> (r: Option<StackPosition>)
    ensures
        r == position_of(v@.literal),
{
    match &v.literal {
        KdlLiteral::Str(s) => {
            let cs = chars_of(s.as_str());
            if name_is(&cs, make_word_left()) {
                Some(StackPosition::Left)
            } else if name_is(&cs, make_word_right()) {
                Some(StackPosition::Right)
            } else if name_is(&cs, make_word_top()) {
                Some(StackPosition::Top)
            } else if name_is(&cs, make_word_bottom()) {
                Some(StackPosition::Bottom)
            } else {
                None
            }
        },
        _ => None,
    }
}

fn flag_value(n: &KdlSpannedNode) -> (r: Option<bool>)
    ensures
        r == flag_of(kdl_node(*n)),
{
    let args = kdl_arg_count(n);
    if kdl_prop_count(n) != 0 || kdl_children(n).len() != 0 || args > 1 {
        None
    } else if args == 0 {
        Some(true)
    } else {
        match kdl_arg(n, 0).literal {
            KdlLiteral::Bool(b) => Some(b),
            _ => None,
        }
    }
}

/// Whether `cs` reads `Decimal("` .. `")`.
fn has_decimal_frame(cs: &Vec<char>) -> (r: bool)
    ensures
        r == (cs@.len() >= 11 && cs@.take(9) == debug_prefix() && cs@.skip(cs@.len() - 2)
            == debug_suffix()),
{
    let n = cs.len();
    if n < 11 {
        return false;
    }
    let r = cs[0] == 'D' && cs[1] == 'e' && cs[2] == 'c' && cs[3] == 'i' && cs[4] == 'm'
        && cs[5] == 'a' && cs[6] == 'l' && cs[7] == '(' && cs[8] == '"' && cs[n - 2] == '"'
        && cs[n - 1] == ')';
    proof {
        if r {
            assert(cs@.take(9) =~= debug_prefix());
            assert(cs@.skip(cs@.len() - 2) =~= debug_suffix());
        } else {
            if cs@.take(9) == debug_prefix() {
                assert(cs@.take(9)[0] == 'D');
                assert(cs@.take(9)[1] == 'e');
                assert(cs@.take(9)[2] == 'c');
                assert(cs@.take(9)[3] == 'i');
                assert(cs@.take(9)[4] == 'm');
                assert(cs@.take(9)[5] == 'a');
                assert(cs@.take(9)[6] == 'l');
                assert(cs@.take(9)[7] == '(');
                assert(cs@.take(9)[8] == '"');
                if cs@.skip(cs@.len() - 2) == debug_suffix() {
                    assert(cs@.skip(cs@.len() - 2)[0] == '"');
                    assert(cs@.skip(cs@.len() - 2)[1] == ')');
                }
            }
        }
    }
    r
}

fn number_value(v: &KdlValue, lo: i64, hi: i64) -> (r: Option<i64>)
    requires
        0 <= lo <= hi <= 60_000,
    ensures
        r == number_micros(v@.literal, lo as int, hi as int),
{
    match &v.literal {
        KdlLiteral::Int(Some(x)) => {
            if lo <= *x && *x <= hi {
                Some(*x * UNIT)
            } else {
                None
            }
        },
        KdlLiteral::Decimal(d) => {
            let cs = chars_of(d.as_str());
            if !has_decimal_frame(&cs) {
                return None;
            }
            let n = cs.len();
            proof {
                assert(decimal_text(d@) == Some(cs@.subrange(9, n - 2)));
            }
            decimal_value(&cs, 9, n - 2, lo, hi)
        },
        _ => None,
    }
}

fn number_node(n: &KdlSpannedNode, lo: i64, hi: i64) -> (r: Option<i64>)
    requires
        0 <= lo <= hi <= 60_000,
    ensures
        r == number_of(kdl_node(*n), lo as int, hi as int),
{
    match single_arg_of(n) {
        Some(v) => number_value(&v, lo, hi),
        None => None,
    }
}


// ---------------------------------------------------------------------------------------------
// The `stage-manager` section.

/// The section `part` with the child node `c` read into it; `None` when `c` is not a node
/// the section accepts, holds a value it refuses, or was already given.
pub open spec fn with_child(p: StageManagerPart, c: NodeView) -> Option<StageManagerPart> {
    let name = c.name;
    if name == word_stack_position() {
        match (p.stack_position, single_arg(c)) {
            (None, Some(l)) => match position_of(l) {
                Some(v) => Some(StageManagerPart { stack_position: Some(v), ..p }),
                None => None,
            },
            _ => None,
        }
    } else if name == word_proportion() {
        match (p.proportion, number_of(c, 0, 1)) {
            (None, Some(v)) => Some(StageManagerPart { proportion: Some(v), ..p }),
            _ => None,
        }
    } else if name == word_max_cast_groups() {
        match (p.max_cast_groups, number_of(c, 1, 12)) {
            (None, Some(v)) => Some(StageManagerPart { max_cast_groups: Some(v), ..p }),
            _ => None,
        }
    } else if name == word_thumb_scale() {
        match (p.thumb_scale, number_of(c, 0, 1)) {
            (None, Some(v)) => Some(StageManagerPart { thumb_scale: Some(v), ..p }),
            _ => None,
        }
    } else if name == word_stack_by_app() {
        match (p.stack_by_app, flag_of(c)) {
            (None, Some(v)) => Some(StageManagerPart { stack_by_app: Some(v), ..p }),
            _ => None,
        }
    } else if name == word_auto_use_as_main() {
        match (p.auto_use_as_main, flag_of(c)) {
            (None, Some(v)) => Some(StageManagerPart { auto_use_as_main: Some(v), ..p }),
            _ => None,
        }
    } else if name == word_auto_use_as_main_delay_ms() {
        match (p.auto_use_as_main_delay_ms, number_of(c, 0, 60_000)) {
            (None, Some(v)) => Some(StageManagerPart { auto_use_as_main_delay_ms: Some(v), ..p }),
            _ => None,
        }
    } else {
        None
    }
}

pub open spec fn empty_part() -> StageManagerPart {
    StageManagerPart {
        stack_position: None,
        proportion: None,
        max_cast_groups: None,
        thumb_scale: None,
        stack_by_app: None,
        auto_use_as_main: None,
        auto_use_as_main_delay_ms: None,
    }
}

/// The children of a `stage-manager` node read in order.
pub open spec fn section_children(cs: Seq<NodeView>) -> Option<StageManagerPart>
    decreases cs.len(),
{
    if cs.len() == 0 {
        Some(empty_part())
    } else {
        match section_children(cs.drop_last()) {
            Some(p) => with_child(p, cs.last()),
            None => None,
        }
    }
}

/// A `stage-manager` node: no arguments, no properties, and children the section accepts.
pub open spec fn stage_manager_section(n: NodeView) -> Option<StageManagerPart> {
    if n.args.len() == 0 && n.props == 0 {
        section_children(n.children)
    } else {
        None
    }
}

proof fn lemma_section_refused_stays(cs: Seq<NodeView>, i: int, j: int)
    requires
        0 <= i <= j <= cs.len(),
        section_children(cs.take(i)) is None,
    ensures
        section_children(cs.take(j)) is None,
    decreases j - i,
{
    if i < j {
        assert(cs.take(i + 1).drop_last() =~= cs.take(i));
        lemma_section_refused_stays(cs, i + 1, j);
    }
}

fn apply_child(p: StageManagerPart, c: &KdlSpannedNode) -> (r: Option<StageManagerPart>)
    ensures
        r == with_child(p, kdl_node(*c)),
{
    let cs = chars_of(kdl_node_name(c).as_str());
    if name_is(&cs, make_word_stack_position()) {
        if p.stack_position.is_some() {
            return None;
        }
        match single_arg_of(c) {
            Some(v) => match position_value(&v) {
                Some(pos) => Some(StageManagerPart { stack_position: Some(pos), ..p }),
                None => None,
            },
            None => None,
        }
    } else if name_is(&cs, make_word_proportion()) {
        if p.proportion.is_some() {
            return None;
        }
        match number_node(c, 0, 1) {
            Some(v) => Some(StageManagerPart { proportion: Some(v), ..p }),
            None => None,
        }
    } else if name_is(&cs, make_word_max_cast_groups()) {
        if p.max_cast_groups.is_some() {
            return None;
        }
        match number_node(c, 1, 12) {
            Some(v) => Some(StageManagerPart { max_cast_groups: Some(v), ..p }),
            None => None,
        }
    } else if name_is(&cs, make_word_thumb_scale()) {
        if p.thumb_scale.is_some() {
            return None;
        }
        match number_node(c, 0, 1) {
            Some(v) => Some(StageManagerPart { thumb_scale: Some(v), ..p }),
            None => None,
        }
    } else if name_is(&cs, make_word_stack_by_app()) {
        if p.stack_by_app.is_some() {
            return None;
        }
        match flag_value(c) {
            Some(v) => Some(StageManagerPart { stack_by_app: Some(v), ..p }),
            None => None,
        }
    } else if name_is(&cs, make_word_auto_use_as_main()) {
        if p.auto_use_as_main.is_some() {
            return None;
        }
        match flag_value(c) {
            Some(v) => Some(StageManagerPart { auto_use_as_main: Some(v), ..p }),
            None => None,
        }
    } else if name_is(&cs, make_word_auto_use_as_main_delay_ms()) {
        if p.auto_use_as_main_delay_ms.is_some() {
            return None;
        }
        match number_node(c, 0, 60_000) {
            Some(v) => Some(StageManagerPart { auto_use_as_main_delay_ms: Some(v), ..p }),
            None => None,
        }
    } else {
        None
    }
}

/// Reads a `stage-manager { .. }` node into the section it gives.
pub fn decode_stage_manager_section(n: &KdlSpannedNode) -> (r: Result<
    StageManagerPart,
    ConfigError,
>)
    ensures
        match stage_manager_section(kdl_node(*n)) {
            Some(p) => r == Ok::<StageManagerPart, ConfigError>(p),
            None => r == Err::<StageManagerPart, ConfigError>(ConfigError::Invalid),
        },
{
    if kdl_arg_count(n) != 0 || kdl_prop_count(n) != 0 {
        return Err(ConfigError::Invalid);
    }
    let children = kdl_children(n);
    let ghost cs = kdl_node(*n).children;
    let mut part = StageManagerPart::default();
    let mut i: usize = 0;
    proof {
        assert(cs.take(0) =~= Seq::<NodeView>::empty());
    }
    while i < children.len()
        invariant
            i <= children@.len(),
            children@.len() == cs.len(),
            cs == kdl_node(*n).children,
            forall|k: int| 0 <= k < children@.len() ==> kdl_node(#[trigger] children@[k]) == cs[k],
            section_children(cs.take(i as int)) == Some(part),
        decreases children@.len() - i,
    {
        proof {
            assert(cs.take(i + 1).drop_last() =~= cs.take(i as int));
            assert(kdl_node(children@[i as int]) == cs[i as int]);
        }
        match apply_child(part, &children[i]) {
            Some(p) => {
                part = p;
            },
            None => {
                proof {
                    lemma_section_refused_stays(cs, i + 1, cs.len() as int);
                    assert(cs.take(cs.len() as int) =~= cs);
                }
                return Err(ConfigError::Invalid);
            },
        }
        i += 1;
    }
    proof {
        assert(cs.take(cs.len() as int) =~= cs);
    }
    Ok(part)
}


// ---------------------------------------------------------------------------------------------
// `layout` nodes and the document.

/// The children of a `layout` node read in order: the `stage-manager` section when one is
/// given (`Some(None)` when none is); `None` when a `stage-manager` node is refused or given
/// twice. Other children are not read here.
pub open spec fn layout_children(cs: Seq<NodeView>) -> Option<Option<StageManagerPart>>
    decreases cs.len(),
{
    if cs.len() == 0 {
        Some(None)
    } else {
        match layout_children(cs.drop_last()) {
            Some(found) => if cs.last().name == word_stage_manager() {
                match (found, stage_manager_section(cs.last())) {
                    (None, Some(p)) => Some(Some(p)),
                    _ => None,
                }
            } else {
                Some(found)
            },
            None => None,
        }
    }
}

/// A `layout` node: no arguments, no properties, and its `stage-manager` section, if any.
pub open spec fn layout_section(n: NodeView) -> Option<Option<StageManagerPart>> {
    if n.args.len() == 0 && n.props == 0 {
        layout_children(n.children)
    } else {
        None
    }
}

/// The Stage Manager configuration that the top-level nodes `ns` give, read in order: each
/// `layout` node that holds a `stage-manager` section replaces what came before;
/// `Some(None)` when no `layout` node holds one; `None` when a `layout` node is refused.
pub open spec fn document_stage_manager(ns: Seq<NodeView>) -> Option<Option<StageManagerConfig>>
    decreases ns.len(),
{
    if ns.len() == 0 {
        Some(None)
    } else {
        match document_stage_manager(ns.drop_last()) {
            Some(cur) => if ns.last().name == word_layout() {
                match layout_section(ns.last()) {
                    Some(Some(p)) => Some(Some(stage_manager_from_part_spec(p))),
                    Some(None) => Some(cur),
                    None => None,
                }
            } else {
                Some(cur)
            },
            None => None,
        }
    }
}

/// What the nodes of a parsed document hold.
pub open spec fn node_views(ns: Seq<KdlSpannedNode>) -> Seq<NodeView> {
    ns.map_values(|n: KdlSpannedNode| kdl_node(n))
}

proof fn lemma_layout_refused_stays(cs: Seq<NodeView>, i: int, j: int)
    requires
        0 <= i <= j <= cs.len(),
        layout_children(cs.take(i)) is None,
    ensures
        layout_children(cs.take(j)) is None,
    decreases j - i,
{
    if i < j {
        assert(cs.take(i + 1).drop_last() =~= cs.take(i));
        lemma_layout_refused_stays(cs, i + 1, j);
    }
}

proof fn lemma_document_refused_stays(ns: Seq<NodeView>, i: int, j: int)
    requires
        0 <= i <= j <= ns.len(),
        document_stage_manager(ns.take(i)) is None,
    ensures
        document_stage_manager(ns.take(j)) is None,
    decreases j - i,
{
    if i < j {
        assert(ns.take(i + 1).drop_last() =~= ns.take(i));
        lemma_document_refused_stays(ns, i + 1, j);
    }
}

/// Reads the `stage-manager` section of a `layout` node, if it holds one.
pub fn decode_layout_section(n: &KdlSpannedNode) -> (r: Result<
    Option<StageManagerPart>,
    ConfigError,
>)
    ensures
        match layout_section(kdl_node(*n)) {
            Some(found) => r == Ok::<Option<StageManagerPart>, ConfigError>(found),
            None => r == Err::<Option<StageManagerPart>, ConfigError>(ConfigError::Invalid),
        },
{
    if kdl_arg_count(n) != 0 || kdl_prop_count(n) != 0 {
        return Err(ConfigError::Invalid);
    }
    let children = kdl_children(n);
    let ghost cs = kdl_node(*n).children;
    let mut found: Option<StageManagerPart> = None;
    let mut i: usize = 0;
    proof {
        assert(cs.take(0) =~= Seq::<NodeView>::empty());
    }
    while i < children.len()
        invariant
            i <= children@.len(),
            children@.len() == cs.len(),
            cs == kdl_node(*n).children,
            forall|k: int| 0 <= k < children@.len() ==> kdl_node(#[trigger] children@[k]) == cs[k],
            layout_children(cs.take(i as int)) == Some(found),
        decreases children@.len() - i,
    {
        proof {
            assert(cs.take(i + 1).drop_last() =~= cs.take(i as int));
            assert(kdl_node(children@[i as int]) == cs[i as int]);
        }
        let c = &children[i];
        let name = chars_of(kdl_node_name(c).as_str());
        if name_is(&name, make_word_stage_manager()) {
            let refused = found.is_some();
            let section = decode_stage_manager_section(c);
            match section {
                Ok(p) => {
                    if refused {
                        proof {
                            lemma_layout_refused_stays(cs, i + 1, cs.len() as int);
                            assert(cs.take(cs.len() as int) =~= cs);
                        }
                        return Err(ConfigError::Invalid);
                    }
                    found = Some(p);
                },
                Err(e) => {
                    proof {
                        lemma_layout_refused_stays(cs, i + 1, cs.len() as int);
                        assert(cs.take(cs.len() as int) =~= cs);
                    }
                    return Err(ConfigError::Invalid);
                },
            }
        }
        i += 1;
    }
    proof {
        assert(cs.take(cs.len() as int) =~= cs);
    }
    Ok(found)
}

/// Reads the Stage Manager configuration from the top-level nodes of a document: the
/// `stage-manager` section of the last `layout` node that holds one, built with
/// [`StageManagerConfig::from_part`]; `Ok(None)` when no `layout` node holds one.
pub fn decode_stage_manager_config(nodes: &[KdlSpannedNode]) -> (r: Result<
    Option<StageManagerConfig>,
    ConfigError,
>)
    ensures
        match document_stage_manager(node_views(nodes@)) {
            Some(c) => r == Ok::<Option<StageManagerConfig>, ConfigError>(c),
            None => r == Err::<Option<StageManagerConfig>, ConfigError>(ConfigError::Invalid),
        },
{
    let ghost ns = node_views(nodes@);
    let mut cur: Option<StageManagerConfig> = None;
    let mut i: usize = 0;
    proof {
        assert(ns.take(0) =~= Seq::<NodeView>::empty());
    }
    while i < nodes.len()
        invariant
            i <= nodes@.len(),
            ns == node_views(nodes@),
            ns.len() == nodes@.len(),
            document_stage_manager(ns.take(i as int)) == Some(cur),
        decreases nodes@.len() - i,
    {
        proof {
            assert(ns.take(i + 1).drop_last() =~= ns.take(i as int));
            assert(ns[i as int] == kdl_node(nodes@[i as int]));
        }
        let node = &nodes[i];
        let name = chars_of(kdl_node_name(node).as_str());
        if name_is(&name, make_word_layout()) {
            match decode_layout_section(node) {
                Ok(Some(p)) => {
                    cur = Some(StageManagerConfig::from_part(&p));
                },
                Ok(None) => {},
                Err(e) => {
                    proof {
                        lemma_document_refused_stays(ns, i + 1, ns.len() as int);
                        assert(ns.take(ns.len() as int) =~= ns);
                    }
                    return Err(ConfigError::Invalid);
                },
            }
        }
        i += 1;
    }
    proof {
        assert(ns.take(ns.len() as int) =~= ns);
    }
    Ok(cur)
}

/// Parses configuration text and reads its Stage Manager configuration:
/// `Err(Syntax)` when the text is not valid KDL, else what
/// [`decode_stage_manager_config`] reads from the document's top-level nodes.
pub fn parse_stage_manager_config(text: &str) -> (r: Result<
    Option<StageManagerConfig>,
    ConfigError,
>)
    ensures
        match kdl_document(text@) {
            None => r == Err::<Option<StageManagerConfig>, ConfigError>(ConfigError::Syntax),
            Some(ns) => match document_stage_manager(ns) {
                Some(c) => r == Ok::<Option<StageManagerConfig>, ConfigError>(c),
                None => r == Err::<Option<StageManagerConfig>, ConfigError>(
                    ConfigError::Invalid,
                ),
            },
        },
{
    match parse_kdl(text) {
        Ok(nodes) => {
            proof {
                assert(node_views(nodes@) =~= kdl_document(text@)->Some_0);
            }
            decode_stage_manager_config(nodes.as_slice())
        },
        Err(_) => Err(ConfigError::Syntax),
    }
}


proof fn lemma_document_in_range(ns: Seq<NodeView>)
    ensures
        document_stage_manager(ns) matches Some(Some(c)) ==> {
            &&& 100_000 <= c.proportion <= 900_000
            &&& 1 <= c.max_cast_groups <= 12
            &&& 100_000 <= c.thumb_scale <= 300_000
            &&& c.auto_use_as_main_delay_ms <= 60_000
        },
    decreases ns.len(),
{
    if ns.len() > 0 {
        lemma_document_in_range(ns.drop_last());
        if ns.last().name == word_layout() {
            match layout_section(ns.last()) {
                Some(Some(p)) => {
                    crate::config::law_stage_manager_config_in_range(p);
                },
                _ => {},
            }
        }
    }
}

/// Whatever configuration text is read, the Stage Manager configuration it gives lies in the
/// documented ranges.
pub proof fn law_parsed_config_in_range(text: Seq<char>)
    ensures
        kdl_document(text) matches Some(ns) ==> (document_stage_manager(ns) matches Some(Some(c))
            ==> {
            &&& 100_000 <= c.proportion <= 900_000
            &&& 1 <= c.max_cast_groups <= 12
            &&& 100_000 <= c.thumb_scale <= 300_000
            &&& c.auto_use_as_main_delay_ms <= 60_000
        }),
{
    if let Some(ns) = kdl_document(text) {
        lemma_document_in_range(ns);
    }
}

} // verus!
