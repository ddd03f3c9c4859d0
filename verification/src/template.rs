//! Templates: a sequence of layout-producing nodes, and the builder that
//! instantiates a template with a style into a stack or a layout tree.

use vstd::prelude::*;
use vstd::string::StringExecFns;

use crate::deco::Deco;
use crate::geom::{Abs, Dir, GenAxis, Rel};
use crate::style::{Align, Style, TextStyle};
use crate::tree::{LayoutNode, LayoutTree, PageNode, ParChild, ParNode, StackChild, StackNode};

verus! {

/// A change that a template can make to the current style.
#[derive(Clone, Copy, PartialEq, Eq, Structural, Debug, Hash)]
pub enum StyleChange {
    /// Set whether text is set in monospace.
    Monospace(bool),
    /// Set the spacing between paragraphs.
    ParSpacing(Abs),
    /// Set the spacing between lines.
    LineSpacing(Abs),
}

impl StyleChange {
    /// The style after this change.
    pub open spec fn spec_applied(self, s: Style) -> Style {
        match self {
            StyleChange::Monospace(m) => Style {
                text: TextStyle { monospace: m },
                ..s
            },
            StyleChange::ParSpacing(v) => Style { par_spacing: v, ..s },
            StyleChange::LineSpacing(v) => Style { line_spacing: v, ..s },
        }
    }

    /// Apply this change to a style.
    pub fn apply(self, s: Style) -> (r: Style)
        ensures
            r == self.spec_applied(s),
    {
        match self {
            StyleChange::Monospace(m) => Style {
                text: TextStyle { monospace: m },
                ..s
            },
            StyleChange::ParSpacing(v) => Style { par_spacing: v, ..s },
            StyleChange::LineSpacing(v) => Style { line_spacing: v, ..s },
        }
    }
}

/// One node in a template.
#[derive(Debug)]
pub enum TemplateNode {
    /// A word space.
    Space(Vec<Deco>),
    /// A line break.
    Linebreak,
    /// A paragraph break.
    Parbreak,
    /// A page break; whether the new page is kept even when empty.
    Pagebreak(bool),
    /// Plain text.
    Text(String, Vec<Deco>),
    /// Spacing along an axis.
    Spacing(GenAxis, Rel),
    /// An inline-level node.
    Inline(LayoutNode, Vec<Deco>),
    /// A block-level node.
    Block(LayoutNode),
    /// Save the current style.
    Save,
    /// Restore the last saved style.
    Restore,
    /// A change to the current style.
    Modify(StyleChange),
}

/// How decorating a template rewrites one node: spaces, text and inline
/// nodes gain the decoration, everything else stays as it is.
pub open spec fn decorated_rel(a: TemplateNode, b: TemplateNode, d: Deco) -> bool {
    match a {
        TemplateNode::Space(v) => b is Space && b->Space_0@ == v@.push(d),
        TemplateNode::Text(t, v) => b is Text && b->Text_0@ == t@ && b->Text_1@ == v@.push(d),
        TemplateNode::Inline(n, v) => b is Inline && b->Inline_0 == n && b->Inline_1@ == v@.push(
            d,
        ),
        _ => b == a,
    }
}

/// A template: a sequence of nodes that, instantiated with a style, yields
/// a stack of paragraphs or a tree of pages.
#[derive(Debug)]
pub struct Template(Vec<TemplateNode>);

impl View for Template {
    type V = Seq<TemplateNode>;

    closed spec fn view(&self) -> Seq<TemplateNode> {
        self.0@
    }
}

impl Template {
    /// Create a new, empty template.
    pub fn new() -> (r: Template)
        ensures
            r@ =~= Seq::<TemplateNode>::empty(),
    {
        Template(Vec::new())
    }

    /// Create a template holding one inline-level node.
    pub fn from_inline(node: LayoutNode) -> (r: Template)
        ensures
            r@.len() == 1,
            r@[0] is Inline,
            r@[0]->Inline_0 == node,
            r@[0]->Inline_1@ =~= Seq::<Deco>::empty(),
    {
        let mut v: Vec<TemplateNode> = Vec::new();
        v.push(TemplateNode::Inline(node, Vec::new()));
        Template(v)
    }

    /// Create a template holding one block-level node.
    pub fn from_block(node: LayoutNode) -> (r: Template)
        ensures
            r@.len() == 1,
            r@[0] == TemplateNode::Block(node),
    {
        let mut v: Vec<TemplateNode> = Vec::new();
        v.push(TemplateNode::Block(node));
        Template(v)
    }

    /// Add a word space to the template.
    pub fn space(&mut self)
        ensures
            final(self)@.len() == old(self)@.len() + 1,
            final(self)@.drop_last() == old(self)@,
            final(self)@.last() is Space,
            final(self)@.last()->Space_0@ =~= Seq::<Deco>::empty(),
    {
        self.0.push(TemplateNode::Space(Vec::new()));
    }

    /// Add a line break to the template.
    pub fn linebreak(&mut self)
        ensures
            final(self)@ == old(self)@.push(TemplateNode::Linebreak),
    {
        self.0.push(TemplateNode::Linebreak);
    }

    /// Add a paragraph break to the template.
    pub fn parbreak(&mut self)
        ensures
            final(self)@ == old(self)@.push(TemplateNode::Parbreak),
    {
        self.0.push(TemplateNode::Parbreak);
    }

    /// Add a page break to the template.
    pub fn pagebreak(&mut self, keep: bool)
        ensures
            final(self)@ == old(self)@.push(TemplateNode::Pagebreak(keep)),
    {
        self.0.push(TemplateNode::Pagebreak(keep));
    }

    /// Add text to the template.
    pub fn text(&mut self, text: String)
        ensures
            final(self)@.len() == old(self)@.len() + 1,
            final(self)@.drop_last() == old(self)@,
            final(self)@.last() is Text,
            final(self)@.last()->Text_0@ == text@,
            final(self)@.last()->Text_1@ =~= Seq::<Deco>::empty(),
    {
        self.0.push(TemplateNode::Text(text, Vec::new()));
    }

    /// Add text, but in monospace.
    pub fn monospace(&mut self, text: String)
        ensures
            final(self)@.len() == old(self)@.len() + 4,
            final(self)@.take(old(self)@.len() as int) == old(self)@,
            final(self)@[old(self)@.len() as int] == TemplateNode::Save,
            final(self)@[old(self)@.len() as int + 1] == TemplateNode::Modify(
                StyleChange::Monospace(true),
            ),
            final(self)@[old(self)@.len() as int + 2] is Text,
            final(self)@[old(self)@.len() as int + 2]->Text_0@ == text@,
            final(self)@[old(self)@.len() as int + 3] == TemplateNode::Restore,
    {
        let ghost s0 = self@;
        self.save();
        let ghost s1 = self@;
        self.modify(StyleChange::Monospace(true));
        let ghost s2 = self@;
        self.text(text);
        let ghost s3 = self@;
        self.restore();
        proof {
            assert(s1 == s0.push(TemplateNode::Save));
            assert(s2 == s1.push(TemplateNode::Modify(StyleChange::Monospace(true))));
            assert(s3.drop_last() == s2 && s3.len() == s2.len() + 1);
            assert(self@ == s3.push(TemplateNode::Restore));
            assert forall|i: int| 0 <= i < s3.len() implies self@[i] == s3[i] by {}
            assert forall|i: int| 0 <= i < s2.len() implies s3[i] == s2[i] by {
                assert(s3[i] == s3.drop_last()[i]);
            }
            assert(self@.take(old(self)@.len() as int) =~= old(self)@);
            assert(self@[old(self)@.len() as int] == TemplateNode::Save);
            assert(self@[old(self)@.len() as int + 1] == TemplateNode::Modify(
                StyleChange::Monospace(true),
            ));
            assert(self@[old(self)@.len() as int + 3] == TemplateNode::Restore);
        }
    }

    /// Add spacing along an axis.
    pub fn spacing(&mut self, axis: GenAxis, spacing: Rel)
        ensures
            final(self)@ == old(self)@.push(TemplateNode::Spacing(axis, spacing)),
    {
        self.0.push(TemplateNode::Spacing(axis, spacing));
    }

    /// Add a decoration to all contained spaces, texts and inline nodes.
    pub fn decorate(&mut self, deco: Deco)
        ensures
            final(self)@.len() == old(self)@.len(),
            forall|i: int|
                0 <= i < old(self)@.len() ==> decorated_rel(old(self)@[i], #[trigger] final(self)@[i], deco),
    {
        let ghost t0 = self.0@;
        let mut rest: Vec<TemplateNode> = Vec::new();
        core::mem::swap(&mut rest, &mut self.0);
        let n0 = rest.len();
        proof {
            assert(n0 as int == t0.len());
        }
        let mut k: usize = 0;
        while rest.len() > 0
            invariant
                k as int + rest@.len() == t0.len(),
                t0.len() <= usize::MAX as int,
                rest@ =~= t0.skip(k as int),
                self.0@.len() == k as int,
                forall|i: int|
                    0 <= i < k as int ==> decorated_rel(t0[i], #[trigger] self.0@[i], deco),
            decreases rest@.len(),
        {
            let node = rest.remove(0);
            let transformed = match node {
                TemplateNode::Space(mut decos) => {
                    decos.push(deco);
                    TemplateNode::Space(decos)
                },
                TemplateNode::Text(t, mut decos) => {
                    decos.push(deco);
                    TemplateNode::Text(t, decos)
                },
                TemplateNode::Inline(n, mut decos) => {
                    decos.push(deco);
                    TemplateNode::Inline(n, decos)
                },
                other => other,
            };
            self.0.push(transformed);
            k = k + 1;
        }
    }

    /// Register a restorable snapshot.
    pub fn save(&mut self)
        ensures
            final(self)@ == old(self)@.push(TemplateNode::Save),
    {
        self.0.push(TemplateNode::Save);
    }

    /// Ensure that later nodes are untouched by style changes made since
    /// the last snapshot.
    pub fn restore(&mut self)
        ensures
            final(self)@ == old(self)@.push(TemplateNode::Restore),
    {
        self.0.push(TemplateNode::Restore);
    }

    /// Add a change to the current style.
    pub fn modify(&mut self, change: StyleChange)
        ensures
            final(self)@ == old(self)@.push(TemplateNode::Modify(change)),
    {
        self.0.push(TemplateNode::Modify(change));
    }

    /// Return a new template which applies the change from start to end.
    pub fn modified(self, change: StyleChange) -> (r: Template)
        ensures
            r@ =~= seq![
                TemplateNode::Save,
                TemplateNode::Modify(change),
            ] + self@ + seq![TemplateNode::Restore],
    {
        let mut wrapper = Template::new();
        wrapper.save();
        wrapper.modify(change);
        let mut inner = self;
        let ghost s0 = inner.0@;
        let ghost mut k: int = 0;
        while inner.0.len() > 0
            invariant
                0 <= k <= s0.len(),
                inner.0@ =~= s0.skip(k),
                wrapper.0@ =~= seq![
                    TemplateNode::Save,
                    TemplateNode::Modify(change),
                ] + s0.take(k),
            decreases inner.0@.len(),
        {
            let node = inner.0.remove(0);
            wrapper.0.push(node);
            proof {
                assert(s0.take(k + 1) =~= s0.take(k).push(s0[k]));
                k = k + 1;
            }
        }
        wrapper.restore();
        proof {
            assert(s0.take(s0.len() as int) =~= s0);
            assert(wrapper.0@ =~= seq![
                TemplateNode::Save,
                TemplateNode::Modify(change),
            ] + s0 + seq![TemplateNode::Restore]);
        }
        wrapper
    }

    /// Append another template's nodes to this one, in order. This stands
    /// in for concatenation of templates.
    pub fn append(&mut self, other: Template)
        ensures
            final(self)@ =~= old(self)@ + other@,
    {
        let mut rest = other;
        let ghost s0 = rest.0@;
        let ghost mut k: int = 0;
        while rest.0.len() > 0
            invariant
                0 <= k <= s0.len(),
                rest.0@ =~= s0.skip(k),
                self.0@ =~= old(self).0@ + s0.take(k),
            decreases rest.0@.len(),
        {
            let node = rest.0.remove(0);
            self.0.push(node);
            proof {
                assert(s0.take(k + 1) =~= s0.take(k).push(s0[k]));
                k = k + 1;
            }
        }
        proof {
            assert(s0.take(s0.len() as int) =~= s0);
        }
    }

    /// Repeat this template a number of times, if the total size stays
    /// representable.
    pub fn repeat(&self, n: i64) -> (r: Option<Template>)
        ensures
            r is Some <==> 0 <= n && n * self@.len() <= usize::MAX as int,
            r is Some ==> r->Some_0@.len() == n * self@.len(),
            r is Some ==> forall|i: int|
                0 <= i < r->Some_0@.len() ==> node_like(
                    #[trigger] r->Some_0@[i],
                    self@[i % self@.len() as int],
                ),
    {
        if n < 0 {
            return None;
        }
        let len = self.0.len();
        proof {
            assert((n as int) * (len as int) <= 0x7fff_ffff_ffff_ffff * 0xffff_ffff_ffff_ffff)
                by (nonlinear_arith)
                requires
                    0 <= n as int <= 0x7fff_ffff_ffff_ffff,
                    0 <= len as int <= 0xffff_ffff_ffff_ffff,
            ;
        }
        let total_wide: u128 = (n as u128) * (len as u128);
        if total_wide > usize::MAX as u128 {
            proof {
                assert(n * self@.len() > usize::MAX as int);
            }
            return None;
        }
        let total: usize = total_wide as usize;
        let mut out: Vec<TemplateNode> = Vec::new();
        if len == 0 {
            proof {
                assert(n * self@.len() == 0) by (nonlinear_arith)
                    requires
                        self@.len() == 0,
                ;
            }
            return Some(Template(out));
        }
        let mut i: usize = 0;
        while i < total
            invariant
                i <= total,
                len == self@.len(),
                len >= 1,
                total == n * len,
                out@.len() == i as int,
                forall|j: int|
                    0 <= j < i as int ==> node_like(#[trigger] out@[j], self@[j % len as int]),
            decreases total - i,
        {
            proof {
                vstd::arithmetic::div_mod::lemma_mod_bound(i as int, len as int);
            }
            let node = clone_node(&self.0[i % len]);
            out.push(node);
            i = i + 1;
        }
        Some(Template(out))
    }

    /// Build the stack node resulting from instantiating the template with
    /// the given style.
    pub fn to_stack(&self, style: &Style) -> (r: StackNode)
        ensures
            r.dir == style.dir,
    {
        let mut builder = Builder::new(style, false, Ghost(*style));
        builder.template(self, Ghost(*style));
        builder.build_stack(Ghost(*style))
    }

    /// Build the layout tree resulting from instantiating the template with
    /// the given style. Every page of the tree has the style's page size.
    pub fn to_tree(&self, style: &Style) -> (r: LayoutTree)
        ensures
            r.pages@.len() >= 1,
            forall|i: int|
                0 <= i < r.pages@.len() ==> (#[trigger] r.pages@[i]).size == style.page.size,
    {
        let mut builder = Builder::new(style, true, Ghost(*style));
        builder.template(self, Ghost(*style));
        builder.build_tree(Ghost(*style))
    }
}

/// Whether two template nodes carry the same data, looking through the
/// views of their texts and decoration lists.
pub open spec fn node_like(a: TemplateNode, b: TemplateNode) -> bool {
    match a {
        TemplateNode::Space(v) => b is Space && v@ == b->Space_0@,
        TemplateNode::Text(t, v) => b is Text && t@ == b->Text_0@ && v@ == b->Text_1@,
        TemplateNode::Inline(n, v) => b is Inline && n == b->Inline_0 && v@ == b->Inline_1@,
        _ => a == b,
    }
}

/// Copy one template node.
fn clone_node(node: &TemplateNode) -> (r: TemplateNode)
    ensures
        node_like(r, *node),
        node_like(*node, r),
{
    match node {
        TemplateNode::Space(decos) => TemplateNode::Space(clone_decos(decos)),
        TemplateNode::Linebreak => TemplateNode::Linebreak,
        TemplateNode::Parbreak => TemplateNode::Parbreak,
        TemplateNode::Pagebreak(keep) => TemplateNode::Pagebreak(*keep),
        TemplateNode::Text(t, decos) => TemplateNode::Text(t.clone(), clone_decos(decos)),
        TemplateNode::Spacing(axis, v) => TemplateNode::Spacing(*axis, *v),
        TemplateNode::Inline(n, decos) => TemplateNode::Inline(*n, clone_decos(decos)),
        TemplateNode::Block(n) => TemplateNode::Block(*n),
        TemplateNode::Save => TemplateNode::Save,
        TemplateNode::Restore => TemplateNode::Restore,
        TemplateNode::Modify(c) => TemplateNode::Modify(*c),
    }
}

/// Copy a decoration list.
fn clone_decos(v: &Vec<Deco>) -> (r: Vec<Deco>)
    ensures
        r@ == v@,
{
    let mut r: Vec<Deco> = Vec::new();
    let mut i: usize = 0;
    while i < v.len()
        invariant
            i <= v@.len(),
            r@ =~= v@.take(i as int),
        decreases v@.len() - i,
    {
        r.push(v[i]);
        i = i + 1;
    }
    proof {
        assert(r@ =~= v@);
    }
    r
}

/// Whether two decoration lists hold the same decorations.
fn decos_eq(a: &Vec<Deco>, b: &Vec<Deco>) -> (r: bool)
    ensures
        r == (a@ =~= b@),
{
    if a.len() != b.len() {
        return false;
    }
    let n = a.len();
    let mut i: usize = 0;
    while i < n
        invariant
            i <= n,
            n == a@.len() == b@.len(),
            forall|j: int| 0 <= j < i as int ==> a@[j] == b@[j],
        decreases n - i,
    {
        if a[i] != b[i] {
            return false;
        }
        i = i + 1;
    }
    proof {
        assert(a@ =~= b@);
    }
    true
}

/// The style-related invariant the builder keeps: neither the direction
/// nor the page setup ever change while a template is built.
spec fn builder_wf(b: Builder, base: Style) -> bool {
    &&& b.style.dir == base.dir
    &&& b.style.page == base.page
    &&& forall|i: int|
        0 <= i < b.snapshots@.len() ==> (#[trigger] b.snapshots@[i]).dir == base.dir
            && b.snapshots@[i].page == base.page
    &&& b.stack.dir == base.dir
    &&& match b.page {
        Some(pb) => pb.size == base.page.size,
        None => true,
    }
    &&& forall|i: int|
        0 <= i < b.tree.pages@.len() ==> (#[trigger] b.tree.pages@[i]).size == base.page.size
}

/// While a tree is being built, the current page run is kept even if it
/// stays empty; only the style-restore path could disarm it, and it never
/// fires while the page setup is constant.
spec fn builder_armed(b: Builder) -> bool {
    match b.page {
        Some(pb) => pb.hard,
        None => true,
    }
}

/// Transforms a template into the layout representation.
pub struct Builder {
    /// The current style.
    style: Style,
    /// Snapshots of the style.
    snapshots: Vec<Style>,
    /// The tree of finished page runs.
    tree: LayoutTree,
    /// While building a tree, the page metrics; while building a stack,
    /// nothing.
    page: Option<PageBuilder>,
    /// The currently built stack of paragraphs.
    stack: StackBuilder,
}

/// Gathers the metrics of one page run.
pub struct PageBuilder {
    /// The size of the pages.
    size: crate::geom::Size,
    /// Whether the page run is kept even when empty.
    hard: bool,
}

/// Gathers the children of one stack.
pub struct StackBuilder {
    /// The stack's inline direction.
    dir: Dir,
    /// The finished children.
    children: Vec<StackChild>,
    /// The spacing-coalescing state.
    last: Last<StackChild>,
    /// The currently built paragraph.
    par: ParBuilder,
}

/// Gathers the children of one paragraph.
pub struct ParBuilder {
    /// The paragraph's alignment.
    align: Align,
    /// The paragraph's direction.
    dir: Dir,
    /// The spacing between the paragraph's lines.
    line_spacing: Abs,
    /// The finished children.
    children: Vec<ParChild>,
    /// The spacing-coalescing state.
    last: Last<ParChild>,
}

/// Finite state machine for spacing coalescing: soft spacing at the start,
/// at the end or next to hard spacing vanishes.
pub enum Last<N> {
    /// Nothing was pushed yet, or hard spacing was: soft spacing vanishes.
    Forget,
    /// Ordinary content was pushed: soft spacing may follow.
    Any,
    /// Soft spacing is pending; it is emitted only before more content.
    Soft(N),
}

impl<N> Last<N> {
    /// Note ordinary content: any pending soft spacing is handed out to be
    /// pushed first.
    pub fn any(&mut self) -> (r: Option<N>)
        ensures
            *final(self) is Any,
            match *old(self) {
                Last::Soft(_) => r is Some && r->Some_0 == old(self)->Soft_0,
                _ => r is None,
            },
    {
        let mut taken = Last::Any;
        core::mem::swap(&mut taken, self);
        match taken {
            Last::Soft(soft) => Some(soft),
            _ => None,
        }
    }

    /// Note soft spacing: it stays pending, and only if content came just
    /// before.
    pub fn soft(&mut self, soft: N)
        ensures
            match *old(self) {
                Last::Any => *final(self) is Soft && (*final(self))->Soft_0 == soft,
                _ => *final(self) == *old(self),
            },
    {
        let is_any = matches!(self, Last::Any);
        if is_any {
            *self = Last::Soft(soft);
        }
    }

    /// Note hard spacing: pending soft spacing vanishes and none may
    /// follow.
    pub fn hard(&mut self)
        ensures
            *final(self) is Forget,
    {
        *self = Last::Forget;
    }
}

impl ParBuilder {
    /// A new, empty paragraph for the given style.
    fn new(style: &Style) -> (r: ParBuilder)
        ensures
            r.align == style.aligns.inline,
            r.dir == style.dir,
            r.line_spacing == style.line_spacing,
            r.children@.len() == 0,
            r.last is Forget,
    {
        ParBuilder {
            align: style.aligns.inline,
            dir: style.dir,
            line_spacing: style.line_spacing,
            children: Vec::new(),
            last: Last::Forget,
        }
    }

    /// Push a child, emitting pending soft spacing first.
    fn push(&mut self, child: ParChild) {
        let soft = self.last.any();
        match soft {
            Some(soft) => {
                self.push_inner(soft);
            },
            None => {},
        }
        self.push_inner(child);
    }

    /// Push soft spacing that vanishes at the paragraph's edges.
    fn push_soft(&mut self, child: ParChild) {
        self.last.soft(child);
    }

    /// Push hard spacing that always stays.
    fn push_hard(&mut self, child: ParChild) {
        self.last.hard();
        self.push_inner(child);
    }

    /// Push a child, merging adjacent text runs that share their alignment,
    /// style and decorations: such a run is appended to the previous one
    /// instead of starting a new child.
    fn push_inner(&mut self, child: ParChild)
        ensures
            final(self).align == old(self).align,
            final(self).dir == old(self).dir,
            final(self).line_spacing == old(self).line_spacing,
            final(self).last == old(self).last,
            ({
                let cs = old(self).children@;
                if child is Text && cs.len() > 0 && cs.last() is Text && cs.last()->Text_1
                    == child->Text_1 && cs.last()->Text_2 == child->Text_2 && cs.last()->Text_3@
                    == child->Text_3@ {
                    &&& final(self).children@.len() == cs.len()
                    &&& final(self).children@.drop_last() == cs.drop_last()
                    &&& final(self).children@.last() is Text
                    &&& final(self).children@.last()->Text_0@ == cs.last()->Text_0@
                        + child->Text_0@
                    &&& final(self).children@.last()->Text_1 == cs.last()->Text_1
                    &&& final(self).children@.last()->Text_2 == cs.last()->Text_2
                    &&& final(self).children@.last()->Text_3@ == cs.last()->Text_3@
                } else {
                    final(self).children@ == cs.push(child)
                }
            }),
    {
        let merged: bool;
        match &child {
            ParChild::Text(curr_text, curr_align, curr_props, curr_decos) => {
                let last = self.children.len();
                if last > 0 {
                    let prev = self.children.remove(last - 1);
                    match prev {
                        ParChild::Text(mut prev_text, prev_align, prev_props, prev_decos) => {
                            if prev_align == *curr_align && prev_props == *curr_props && decos_eq(
                                &prev_decos,
                                curr_decos,
                            ) {
                                prev_text.append(curr_text.as_str());
                                self.children.push(
                                    ParChild::Text(prev_text, prev_align, prev_props, prev_decos),
                                );
                                merged = true;
                            } else {
                                self.children.push(
                                    ParChild::Text(prev_text, prev_align, prev_props, prev_decos),
                                );
                                merged = false;
                            }
                        },
                        other => {
                            self.children.push(other);
                            merged = false;
                        },
                    }
                } else {
                    merged = false;
                }
            },
            _ => {
                merged = false;
            },
        }
        if !merged {
            self.children.push(child);
        }
    }

    /// Finish the paragraph: nothing when it has no children, otherwise a
    /// stack child holding the paragraph.
    fn build(self) -> (r: Option<StackChild>)
        ensures
            r is Some <==> self.children@.len() > 0,
    {
        if self.children.len() == 0 {
            None
        } else {
            let ParBuilder { align, dir, line_spacing, children, .. } = self;
            let node = ParNode { dir, line_spacing, children };
            Some(
                StackChild::Par(
                    node,
                    crate::style::Aligns { inline: align, block: align },
                ),
            )
        }
    }
}

impl StackBuilder {
    /// A new, empty stack for the given style.
    fn new(style: &Style) -> (r: StackBuilder)
        ensures
            r.dir == style.dir,
            r.children@.len() == 0,
            r.last is Forget,
            r.par.align == style.aligns.inline,
            r.par.dir == style.dir,
            r.par.children@.len() == 0,
    {
        StackBuilder {
            dir: style.dir,
            children: Vec::new(),
            last: Last::Forget,
            par: ParBuilder::new(style),
        }
    }

    /// Push a child, emitting pending soft spacing first.
    fn push(&mut self, child: StackChild)
        ensures
            final(self).dir == old(self).dir,
            final(self).par == old(self).par,
    {
        let soft = self.last.any();
        match soft {
            Some(soft) => {
                self.children.push(soft);
            },
            None => {},
        }
        self.children.push(child);
    }

    /// Push soft spacing that vanishes at the stack's edges.
    fn push_soft(&mut self, child: StackChild)
        ensures
            final(self).dir == old(self).dir,
            final(self).par == old(self).par,
            final(self).children == old(self).children,
    {
        self.last.soft(child);
    }

    /// Push hard spacing that always stays.
    fn push_hard(&mut self, child: StackChild)
        ensures
            final(self).dir == old(self).dir,
            final(self).par == old(self).par,
    {
        self.last.hard();
        self.children.push(child);
    }

    /// Finish the active paragraph and push it as a child.
    fn finish_par(&mut self, style: &Style)
        ensures
            final(self).dir == old(self).dir,
            final(self).par.align == style.aligns.inline,
            final(self).par.dir == style.dir,
            final(self).par.children@.len() == 0,
    {
        let mut par = ParBuilder::new(style);
        core::mem::swap(&mut par, &mut self.par);
        match par.build() {
            Some(par) => {
                self.push(par);
            },
            None => {},
        }
    }

    /// Finish the stack.
    fn build(self) -> (r: StackNode)
        ensures
            r.dir == self.dir,
    {
        let StackBuilder { dir, mut children, par, mut last } = self;
        match par.build() {
            Some(par) => {
                let soft = last.any();
                match soft {
                    Some(soft) => {
                        children.push(soft);
                    },
                    None => {},
                }
                children.push(par);
            },
            None => {},
        }
        StackNode { dir, children }
    }
}

impl Builder {
    /// Create a new builder with a base style; with `pages`, it builds a
    /// tree of page runs, otherwise one stack.
    fn new(style: &Style, pages: bool, Ghost(base): Ghost<Style>) -> (r: Builder)
        requires
            *style == base,
        ensures
            builder_wf(r, base),
            builder_armed(r),
            r.page is Some <==> pages,
    {
        Builder {
            style: *style,
            snapshots: Vec::new(),
            tree: LayoutTree::new(),
            page: if pages {
                Some(PageBuilder::new(style, true))
            } else {
                None
            },
            stack: StackBuilder::new(style),
        }
    }

    /// Build a whole template.
    fn template(&mut self, template: &Template, Ghost(base): Ghost<Style>)
        requires
            builder_wf(*old(self), base),
        ensures
            builder_wf(*final(self), base),
            builder_armed(*old(self)) ==> builder_armed(*final(self)),
            final(self).page is Some <==> old(self).page is Some,
    {
        let n = template.0.len();
        let mut i: usize = 0;
        while i < n
            invariant
                i <= n,
                n == template.0@.len(),
                builder_wf(*self, base),
                builder_armed(*old(self)) ==> builder_armed(*self),
                self.page is Some <==> old(self).page is Some,
            decreases n - i,
        {
            self.node(&template.0[i], Ghost(base));
            i = i + 1;
        }
    }

    /// Build one template node.
    fn node(&mut self, node: &TemplateNode, Ghost(base): Ghost<Style>)
        requires
            builder_wf(*old(self), base),
        ensures
            builder_wf(*final(self), base),
            builder_armed(*old(self)) ==> builder_armed(*final(self)),
            final(self).page is Some <==> old(self).page is Some,
    {
        match node {
            TemplateNode::Save => {
                self.snapshots.push(self.style);
            },
            TemplateNode::Restore => {
                let popped = self.snapshots.pop();
                match popped {
                    Some(style) => {
                        let newpage = style.page != self.style.page;
                        self.style = style;
                        if newpage {
                            self.pagebreak(true, false, Ghost(base));
                        }
                    },
                    None => {},
                }
            },
            TemplateNode::Space(decos) => {
                self.space(decos);
            },
            TemplateNode::Linebreak => {
                self.linebreak();
            },
            TemplateNode::Parbreak => {
                self.parbreak();
            },
            TemplateNode::Pagebreak(keep) => {
                self.pagebreak(*keep, true, Ghost(base));
            },
            TemplateNode::Text(text, decos) => {
                self.text(text, decos);
            },
            TemplateNode::Spacing(axis, amount) => {
                self.spacing(*axis, *amount);
            },
            TemplateNode::Inline(node, decos) => {
                self.inline(*node, decos);
            },
            TemplateNode::Block(node) => {
                self.block(*node);
            },
            TemplateNode::Modify(change) => {
                self.style = change.apply(self.style);
            },
        }
    }

    /// Push a word space into the active paragraph.
    fn space(&mut self, decos: &Vec<Deco>)
        ensures
            final(self).style == old(self).style,
            final(self).snapshots == old(self).snapshots,
            final(self).tree == old(self).tree,
            final(self).page == old(self).page,
            final(self).stack.dir == old(self).stack.dir,
    {
        let child = self.make_text_node(String::from_str(" "), clone_decos(decos));
        self.stack.par.push_soft(child);
    }

    /// Apply a forced line break.
    fn linebreak(&mut self)
        ensures
            final(self).style == old(self).style,
            final(self).snapshots == old(self).snapshots,
            final(self).tree == old(self).tree,
            final(self).page == old(self).page,
            final(self).stack.dir == old(self).stack.dir,
    {
        let child = self.make_text_node(String::from_str("\n"), Vec::new());
        self.stack.par.push_hard(child);
    }

    /// Apply a forced paragraph break.
    fn parbreak(&mut self)
        ensures
            final(self).style == old(self).style,
            final(self).snapshots == old(self).snapshots,
            final(self).tree == old(self).tree,
            final(self).page == old(self).page,
            final(self).stack.dir == old(self).stack.dir,
            final(self).stack.par.align == old(self).style.aligns.inline,
            final(self).stack.par.dir == old(self).style.dir,
    {
        let amount = self.style.par_spacing;
        let style = self.style;
        self.stack.finish_par(&style);
        self.stack.push_soft(StackChild::Spacing(Rel::from_abs(amount)));
    }

    /// Apply a forced page break.
    fn pagebreak(&mut self, keep: bool, hard: bool, Ghost(base): Ghost<Style>)
        requires
            builder_wf(*old(self), base),
        ensures
            builder_wf(*final(self), base),
            final(self).style == old(self).style,
            final(self).snapshots == old(self).snapshots,
            final(self).page is Some <==> old(self).page is Some,
            hard ==> (builder_armed(*old(self)) ==> builder_armed(*final(self))),
            old(self).page is Some && keep && builder_armed(*old(self)) ==> final(self).tree.pages@.len() == old(self).tree.pages@.len() + 1,
            old(self).page is None ==> *final(self) == *old(self),
    {
        match &self.page {
            Some(_) => {
                let style = self.style;
                let mut pb = PageBuilder::new(&style, hard);
                match &mut self.page {
                    Some(builder) => {
                        core::mem::swap(builder, &mut pb);
                    },
                    None => {},
                }
                let mut stack = StackBuilder::new(&style);
                core::mem::swap(&mut stack, &mut self.stack);
                let built = pb.build(stack.build(), keep);
                match built {
                    Some(page) => {
                        self.tree.push_page(page);
                    },
                    None => {},
                }
            },
            None => {},
        }
    }

    /// Push text into the active paragraph.
    fn text(&mut self, text: &String, decos: &Vec<Deco>)
        ensures
            final(self).style == old(self).style,
            final(self).snapshots == old(self).snapshots,
            final(self).tree == old(self).tree,
            final(self).page == old(self).page,
            final(self).stack.dir == old(self).stack.dir,
    {
        let child = self.make_text_node(text.clone(), clone_decos(decos));
        self.stack.par.push(child);
    }

    /// Push an inline node into the active paragraph.
    fn inline(&mut self, node: LayoutNode, decos: &Vec<Deco>)
        ensures
            final(self).style == old(self).style,
            final(self).snapshots == old(self).snapshots,
            final(self).tree == old(self).tree,
            final(self).page == old(self).page,
            final(self).stack.dir == old(self).stack.dir,
    {
        let align = self.style.aligns.inline;
        self.stack.par.push(ParChild::Any(node, align, clone_decos(decos)));
    }

    /// Push a block node into the active stack, finishing the active
    /// paragraph.
    fn block(&mut self, node: LayoutNode)
        ensures
            final(self).style == old(self).style,
            final(self).snapshots == old(self).snapshots,
            final(self).tree == old(self).tree,
            final(self).page == old(self).page,
            final(self).stack.dir == old(self).stack.dir,
    {
        self.parbreak();
        let aligns = self.style.aligns;
        self.stack.push(StackChild::Any(node, aligns));
        self.parbreak();
    }

    /// Push spacing into the active paragraph or stack, depending on the
    /// axis.
    fn spacing(&mut self, axis: GenAxis, amount: Rel)
        ensures
            final(self).style == old(self).style,
            final(self).snapshots == old(self).snapshots,
            final(self).tree == old(self).tree,
            final(self).page == old(self).page,
            final(self).stack.dir == old(self).stack.dir,
    {
        match axis {
            GenAxis::Block => {
                let style = self.style;
                self.stack.finish_par(&style);
                self.stack.push_hard(StackChild::Spacing(amount));
            },
            GenAxis::Inline => {
                self.stack.par.push_hard(ParChild::Spacing(amount));
            },
        }
    }

    /// Finish building and return the created stack.
    fn build_stack(self, Ghost(base): Ghost<Style>) -> (r: StackNode)
        requires
            builder_wf(self, base),
        ensures
            r.dir == base.dir,
    {
        self.stack.build()
    }

    /// Finish building and return the created layout tree.
    fn build_tree(self, Ghost(base): Ghost<Style>) -> (r: LayoutTree)
        requires
            builder_wf(self, base),
            builder_armed(self),
            self.page is Some,
        ensures
            r.pages@.len() >= 1,
            forall|i: int|
                0 <= i < r.pages@.len() ==> (#[trigger] r.pages@[i]).size == base.page.size,
    {
        let mut this = self;
        this.pagebreak(true, false, Ghost(base));
        this.tree
    }

    /// Construct a text node with the given text and the current style.
    fn make_text_node(&self, text: String, decos: Vec<Deco>) -> (r: ParChild)
        ensures
            r is Text,
    {
        ParChild::Text(text, self.style.aligns.inline, self.style.text, decos)
    }
}

impl PageBuilder {
    /// A new page builder from the current style.
    fn new(style: &Style, hard: bool) -> (r: PageBuilder)
        ensures
            r.size == style.page.size,
            r.hard == hard,
    {
        PageBuilder { size: style.page.size, hard }
    }

    /// Build the page run, unless it stays empty and need not be kept.
    fn build(self, child: StackNode, keep: bool) -> (r: Option<PageNode>)
        ensures
            match r {
                Some(page) => page.size == self.size && (child.children@.len() > 0 || (keep
                    && self.hard)),
                None => child.children@.len() == 0 && !(keep && self.hard),
            },
    {
        let PageBuilder { size, hard } = self;
        if child.children.len() > 0 || (keep && hard) {
            Some(PageNode { stack: child, size, hard })
        } else {
            None
        }
    }
}

} // verus!
