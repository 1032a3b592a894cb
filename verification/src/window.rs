//! The layout engine: a window owns an ordered list of named, weighted
//! columns, computes integer column widths from the weights and a total
//! width budget, and renders title, divider, footer and data-row lines.

use vstd::prelude::*;
use vstd::string::*;

use crate::draw::centered_line;
use crate::draw::dash_wrapped;
use crate::draw::format_space_line;
use crate::draw::format_with_dash_wrap;
use crate::draw::format_with_space_wrap;
use crate::draw::spaces;

verus! {

/// Default weight given to a freshly appended column.
pub const DEFAULT_INIT_WEIGHT: i32 = 100;

/// Default number of blank rows above and below the title row.
pub const DEFAULT_LABEL_HEIGHT: i32 = 1;

/// Default window width.
pub const DEFAULT_WINDOW_WIDTH: i32 = 80;

/// Errors of the layout engine.
#[derive(Debug, Clone, Copy, PartialEq, Eq, Structural)]
pub enum LayoutError {
    /// The window is narrower than its columns and separators need.
    InsufficientWidth,
    /// A rendering call was issued while computed widths were stale.
    StaleLayout,
    /// The column list and the width list disagree (defensive; unreachable
    /// through this interface).
    ColumnMismatch,
}

/// One column: a display label, its layout weight, and the width computed
/// for it by the last recompute pass.
pub struct SymbolWindowLabel {
    pub tag: String,
    pub weight: i32,
    pub wid: i32,
}

impl SymbolWindowLabel {
    /// A fresh column with the default weight and no computed width.
    pub fn new(tag: &str) -> (r: Self)
        ensures
            r.tag@ == tag@,
            r.weight == DEFAULT_INIT_WEIGHT,
            r.wid == 0,
    {
        SymbolWindowLabel { tag: String::from_str(tag), weight: DEFAULT_INIT_WEIGHT, wid: 0 }
    }
}

/// The sum of a sequence of integers.
pub open spec fn sum_of(s: Seq<int>) -> int
    decreases s.len(),
{
    if s.len() == 0 {
        0
    } else {
        sum_of(s.drop_last()) + s.last()
    }
}

/// The proportional share of `weight` out of `total` applied to `space`,
/// rounded to the nearest integer (half rounds up).
pub open spec fn rounded_share(weight: int, total: int, space: int) -> int {
    (2 * weight * space + total) / (2 * total)
}

/// The first allocation pass: each column asks for its rounded share and
/// receives it, clamped to what is left of the free budget.
pub open spec fn alloc_pass(ws: Seq<int>, total: int, space: int, free: int) -> Seq<int>
    decreases ws.len(),
{
    if ws.len() == 0 {
        Seq::empty()
    } else {
        let q = rounded_share(ws.first(), total, space);
        let t = if q <= free {
            q
        } else {
            free
        };
        seq![t] + alloc_pass(ws.drop_first(), total, space, free - t)
    }
}

/// The widths allocated to columns of weights `ws` in a content budget of
/// `space`: the allocation pass, with any leftover budget added to the last
/// column.
pub open spec fn alloc_widths(ws: Seq<int>, space: int) -> Seq<int> {
    let p = alloc_pass(ws, sum_of(ws), space, space);
    if ws.len() == 0 {
        p
    } else {
        p.update(ws.len() - 1, p.last() + (space - sum_of(p)))
    }
}

/// The window: an ordered list of weighted columns, a total width budget,
/// the title's vertical padding, and whether the computed widths are current.
pub struct SymbolWindow {
    pub col_label: Vec<SymbolWindowLabel>,
    pub width: i32,
    pub label_v_padd: i32,
    pub clean: bool,
}

impl SymbolWindow {
    /// The number of columns.
    pub open spec fn col_count(&self) -> int {
        self.col_label@.len() as int
    }

    /// The column labels, as character sequences, in rendering order.
    pub open spec fn tag_seq(&self) -> Seq<Seq<char>> {
        self.col_label@.map_values(|l: SymbolWindowLabel| l.tag@)
    }

    /// The column weights, in rendering order.
    pub open spec fn weight_seq(&self) -> Seq<int> {
        self.col_label@.map_values(|l: SymbolWindowLabel| l.weight as int)
    }

    /// The computed column widths, in rendering order.
    pub open spec fn width_seq(&self) -> Seq<int> {
        self.col_label@.map_values(|l: SymbolWindowLabel| l.wid as int)
    }

    /// The space available for column content: the full width minus one
    /// separator before the first column and one after each column.
    pub open spec fn valid_space(&self) -> int {
        self.width - 1 - self.col_count()
    }

    /// Well-formedness: weights are positive and their sum fits the weight
    /// type; when the window is clean, the width budget covers the columns
    /// and the stored widths are exactly the allocation of the weights.
    pub open spec fn wf(&self) -> bool {
        &&& forall|i: int| 0 <= i < self.col_count() ==> 1 <= #[trigger] self.weight_seq()[i]
        &&& sum_of(self.weight_seq()) <= i32::MAX
        &&& self.clean ==> self.width >= self.col_count() + 2
        &&& self.clean ==> self.width_seq() == alloc_widths(self.weight_seq(), self.valid_space())
        &&& self.clean ==> forall|i: int|
            0 <= i < self.col_count() ==> 0 <= #[trigger] self.width_seq()[i]
    }

    /// A window with the default width, no columns, and the default title
    /// padding; trivially clean.
    pub fn new() -> (r: Self)
        ensures
            r.wf(),
            r.clean,
            r.col_count() == 0,
            r.width == DEFAULT_WINDOW_WIDTH,
            r.label_v_padd == DEFAULT_LABEL_HEIGHT,
    {
        let r = SymbolWindow {
            col_label: Vec::new(),
            width: DEFAULT_WINDOW_WIDTH,
            label_v_padd: DEFAULT_LABEL_HEIGHT,
            clean: true,
        };
        proof {
            assert(r.weight_seq() =~= Seq::<int>::empty());
            assert(r.width_seq() =~= Seq::<int>::empty());
            assert(alloc_pass(r.weight_seq(), 0, r.valid_space(), r.valid_space())
                =~= Seq::<int>::empty());
        }
        r
    }

    /// The window's width budget.
    pub fn get_width(&self) -> (r: i32)
        ensures
            r == self.width,
    {
        self.width
    }

    /// Change the width budget; computed widths become stale.
    pub fn resize(&mut self, width: i32)
        requires
            old(self).wf(),
        ensures
            final(self).wf(),
            final(self).width == width,
            !final(self).clean,
            final(self).col_label@ == old(self).col_label@,
            final(self).label_v_padd == old(self).label_v_padd,
    {
        self.width = width;
        self.clean = false;
    }

    /// Change the vertical padding around the title row.
    pub fn resize_title(&mut self, v_padd: i32)
        requires
            old(self).wf(),
        ensures
            final(self).wf(),
            final(self).label_v_padd == v_padd,
            final(self).col_label@ == old(self).col_label@,
            final(self).width == old(self).width,
            final(self).clean == old(self).clean,
    {
        self.label_v_padd = v_padd;
    }

    /// The sum of all column weights.
    pub fn get_total_weight(&self) -> (t: i32)
        requires
            self.wf(),
        ensures
            t == sum_of(self.weight_seq()),
            t >= self.col_count(),
    {
        let ghost ws = self.weight_seq();
        let n = self.col_label.len();
        let mut t: i32 = 0;
        let mut i: usize = 0;
        proof {
            assert(ws.take(0) =~= Seq::<int>::empty());
        }
        while i < n
            invariant
                i <= n,
                n == ws.len(),
                self.wf(),
                ws == self.weight_seq(),
                t == sum_of(ws.take(i as int)),
                t >= i,
            decreases n - i,
        {
            proof {
                lemma_sum_take_step(ws, i as int);
                lemma_sum_prefix_le(ws, i + 1);
            }
            t = t + self.col_label[i].weight;
            i = i + 1;
        }
        proof {
            assert(ws.take(n as int) =~= ws);
        }
        t
    }

    /// The label of column `idx`, if there is one.
    pub fn get_tag(&self, idx: usize) -> (r: Option<&str>)
        ensures
            idx < self.col_count() ==> r is Some && r->Some_0@ == self.tag_seq()[idx as int],
            idx >= self.col_count() ==> r is None,
    {
        if idx < self.col_label.len() {
            Some(self.col_label[idx].tag.as_str())
        } else {
            None
        }
    }

    /// Append one column per name, each with the default weight; computed
    /// widths become stale. The weight budget must accommodate the new
    /// columns.
    pub fn add_tag(&mut self, names: &[&str])
        requires
            old(self).wf(),
            sum_of(old(self).weight_seq()) + DEFAULT_INIT_WEIGHT * names@.len() <= i32::MAX,
        ensures
            final(self).wf(),
            !final(self).clean,
            final(self).width == old(self).width,
            final(self).label_v_padd == old(self).label_v_padd,
            final(self).col_count() == old(self).col_count() + names@.len(),
            final(self).tag_seq() == old(self).tag_seq() + names@.map_values(|s: &str| s@),
            final(self).weight_seq() == old(self).weight_seq() + Seq::new(
                names@.len(),
                |i: int| DEFAULT_INIT_WEIGHT as int,
            ),
    {
        let ghost pre = *old(self);
        let ghost base = pre.col_label@.len() as int;
        let n = names.len();
        let mut i: usize = 0;
        while i < n
            invariant
                i <= n,
                n == names@.len(),
                base == pre.col_label@.len(),
                self.width == pre.width,
                self.label_v_padd == pre.label_v_padd,
                self.clean == pre.clean,
                self.col_label@.len() == base + i,
                forall|j: int| 0 <= j < base ==> #[trigger] self.col_label@[j]
                    == pre.col_label@[j],
                forall|j: int| base <= j < base + i ==> (#[trigger] self.col_label@[j]).tag@
                    == names@[j - base]@ && self.col_label@[j].weight == DEFAULT_INIT_WEIGHT
                    && self.col_label@[j].wid == 0,
            decreases n - i,
        {
            let ghost entry = self.col_label@;
            let name_i: &str = names[i];
            proof {
                assert(name_i@ == names@[i as int]@);
            }
            let lab = SymbolWindowLabel::new(name_i);
            self.col_label.push(lab);
            i = i + 1;
            proof {
                assert(self.col_label@ == entry.push(lab));
                assert(self.col_label@[base + i - 1] == lab);
                assert forall|j: int| (base <= j && j < base + i) implies ((
                #[trigger] self.col_label@[j]).tag@ == names@[j - base]@
                    && self.col_label@[j].weight == DEFAULT_INIT_WEIGHT && self.col_label@[j].wid
                    == 0) by {
                    if j < base + i - 1 {
                        assert(entry.push(lab)[j] == entry[j]);
                        assert(entry[j].tag@ == names@[j - base]@);
                    } else {
                        assert(self.col_label@[j] == lab);
                    }
                }
            }
        }
        self.clean = false;
        proof {
            let fresh = Seq::new(n as nat, |j: int| DEFAULT_INIT_WEIGHT as int);
            assert(final(self).tag_seq() =~~= pre.tag_seq() + names@.map_values(|s: &str| s@));
            assert(final(self).weight_seq() =~= pre.weight_seq() + fresh);
            lemma_sum_concat(pre.weight_seq(), fresh);
            lemma_sum_constant(fresh, DEFAULT_INIT_WEIGHT as int);
        }
    }
}

/// The index of the first element of `tags` equal to `name`, or -1 when
/// none is.
pub open spec fn first_tag_index(tags: Seq<Seq<char>>, name: Seq<char>) -> int
    decreases tags.len(),
{
    if tags.len() == 0 {
        -1
    } else if tags.first() == name {
        0
    } else {
        let r = first_tag_index(tags.drop_first(), name);
        if r == -1 {
            -1
        } else {
            r + 1
        }
    }
}

/// What `first_tag_index` returns: -1 exactly when no element matches, and
/// otherwise the position of the first match.
pub proof fn lemma_first_tag_index(tags: Seq<Seq<char>>, name: Seq<char>)
    ensures
        first_tag_index(tags, name) == -1 <==> (forall|j: int|
            0 <= j < tags.len() ==> tags[j] != name),
        first_tag_index(tags, name) != -1 ==> {
            let k = first_tag_index(tags, name);
            &&& 0 <= k < tags.len()
            &&& tags[k] == name
            &&& forall|j: int| 0 <= j < k ==> tags[j] != name
        },
    decreases tags.len(),
{
    if tags.len() > 0 && tags.first() != name {
        let rest = tags.drop_first();
        lemma_first_tag_index(rest, name);
        assert(forall|j: int| 0 <= j < rest.len() ==> #[trigger] rest[j] == tags[j + 1]);
        let r = first_tag_index(rest, name);
        if r == -1 {
            assert forall|j: int| 0 <= j < tags.len() implies tags[j] != name by {
                if j > 0 {
                    assert(rest[j - 1] != name);
                }
            }
        } else {
            assert(tags[r + 1] == rest[r]);
            assert forall|j: int| 0 <= j < r + 1 implies tags[j] != name by {
                if j > 0 {
                    assert(rest[j - 1] != name);
                }
            }
        }
    }
}

/// The weight that results from scaling `w` by `num / den`, truncated toward
/// zero (scaling a weight's share of the total scales the weight itself).
pub open spec fn adjusted_weight(w: int, num: int, den: int) -> int {
    (w * num) / den
}

/// Whether a scale of `num / den` takes effect on a column of weight `w`
/// under total weight `total`: the scaled share must stay strictly below the
/// whole, the new weight must stay positive, and the new total must still
/// fit the weight type.
pub open spec fn weight_change_applies(w: int, total: int, num: int, den: int) -> bool {
    &&& w * num < total * den
    &&& adjusted_weight(w, num, den) >= 1
    &&& total - w + adjusted_weight(w, num, den) <= i32::MAX
}

impl SymbolWindow {
    /// The position of the first column labelled `name`.
    fn find_tag(&self, name: &str) -> (r: Option<usize>)
        ensures
            match r {
                Some(k) => k as int == first_tag_index(self.tag_seq(), name@) && k
                    < self.col_count(),
                None => first_tag_index(self.tag_seq(), name@) == -1,
            },
    {
        let key = String::from_str(name);
        let n = self.col_label.len();
        let mut i: usize = 0;
        while i < n
            invariant
                i <= n,
                n == self.col_count(),
                key@ == name@,
                forall|j: int| 0 <= j < i ==> self.tag_seq()[j] != name@,
            decreases n - i,
        {
            if self.col_label[i].tag == key {
                proof {
                    lemma_first_tag_index(self.tag_seq(), name@);
                    assert(self.tag_seq()[i as int] == name@);
                }
                return Some(i);
            }
            proof {
                assert(self.tag_seq()[i as int] == self.col_label@[i as int].tag@);
            }
            i = i + 1;
        }
        proof {
            lemma_first_tag_index(self.tag_seq(), name@);
        }
        None
    }

    /// The weight of the first column labelled `name`, if there is one.
    pub fn get_weight(&self, name: &str) -> (r: Option<i32>)
        ensures
            r is None <==> first_tag_index(self.tag_seq(), name@) == -1,
            r is Some ==> r->Some_0 == self.weight_seq()[first_tag_index(self.tag_seq(), name@)],
    {
        match self.find_tag(name) {
            Some(k) => Some(self.col_label[k].weight),
            None => None,
        }
    }

    /// Scale the weight of the first column labelled `name` by `num / den`.
    /// The change takes effect only when it keeps the column's share of the
    /// total strictly between zero and one, keeps the weight positive, and
    /// keeps the total weight within its type; otherwise nothing changes.
    /// When it takes effect, computed widths become stale.
    pub fn change_weight(&mut self, name: &str, num: u32, den: u32)
        requires
            old(self).wf(),
            1 <= den,
        ensures
            final(self).wf(),
            final(self).width == old(self).width,
            final(self).label_v_padd == old(self).label_v_padd,
            ({
                let k = first_tag_index(old(self).tag_seq(), name@);
                let total = sum_of(old(self).weight_seq());
                if k == -1 {
                    *final(self) == *old(self)
                } else {
                    let w = old(self).weight_seq()[k];
                    if weight_change_applies(w, total, num as int, den as int) {
                        &&& final(self).tag_seq() == old(self).tag_seq()
                        &&& final(self).width_seq() == old(self).width_seq()
                        &&& final(self).weight_seq() == old(self).weight_seq().update(
                            k,
                            adjusted_weight(w, num as int, den as int),
                        )
                        &&& !final(self).clean
                    } else {
                        *final(self) == *old(self)
                    }
                }
            }),
    {
        let k = match self.find_tag(name) {
            Some(k) => k,
            None => {
                return ;
            },
        };
        let w = self.col_label[k].weight;
        let total = self.get_total_weight();
        let ghost wi = w as int;
        let ghost ti = total as int;
        proof {
            assert(self.weight_seq()[k as int] == w as int);
            assert(1 <= w as int && w as int <= sum_of(self.weight_seq())) by {
                lemma_sum_element_le(self.weight_seq(), k as int);
            }
        }
        let wu = w as u64;
        let nu = num as u64;
        let du = den as u64;
        let tu = total as u64;
        proof {
            assert(wu * nu < 0x8000_0000_0000_0000u64) by (nonlinear_arith)
                requires
                    wu < 0x8000_0000u64,
                    nu < 0x1_0000_0000u64,
            ;
            assert(tu * du < 0x8000_0000_0000_0000u64) by (nonlinear_arith)
                requires
                    tu < 0x8000_0000u64,
                    du < 0x1_0000_0000u64,
            ;
        }
        let prod = wu * nu;
        let cap = tu * du;
        if prod < cap {
            let nw = prod / du;
            proof {
                assert(nw as int == adjusted_weight(wi, num as int, den as int));
                vstd::arithmetic::mul::lemma_mul_is_commutative(ti, den as int);
                vstd::arithmetic::div_mod::lemma_multiply_divide_lt(
                    prod as int,
                    du as int,
                    ti,
                );
                assert(nw < tu);
            }
            if nw >= 1 {
                let nt = total as i64 - w as i64 + nw as i64;
                if nt <= i32::MAX as i64 {
                    let wid_k = self.col_label[k].wid;
                    let tag_k = self.col_label[k].tag.clone();
                    self.col_label[k] = SymbolWindowLabel {
                        tag: tag_k,
                        weight: nw as i32,
                        wid: wid_k,
                    };
                    self.clean = false;
                    proof {
                        let pre = *old(self);
                        assert(final(self).tag_seq() =~~= pre.tag_seq());
                        assert(final(self).width_seq() =~= pre.width_seq());
                        assert(final(self).weight_seq() =~= pre.weight_seq().update(
                            k as int,
                            adjusted_weight(wi, num as int, den as int),
                        ));
                        lemma_sum_update(pre.weight_seq(), k as int, nw as int);
                    }
                }
            }
        }
    }
}

/// How a successful recompute relates the new window to the old: columns,
/// weights, width budget and title padding are kept; the stored widths are
/// the allocation of the weights; the window is clean.
pub open spec fn is_recompute_of(post: SymbolWindow, pre: SymbolWindow) -> bool {
    &&& post.tag_seq() == pre.tag_seq()
    &&& post.weight_seq() == pre.weight_seq()
    &&& post.width_seq() == alloc_widths(pre.weight_seq(), pre.valid_space())
    &&& post.width == pre.width
    &&& post.label_v_padd == pre.label_v_padd
    &&& post.clean
}

impl SymbolWindow {
    /// Recompute the column widths from the weights: each column in order
    /// receives its rounded proportional share of the content space, clamped
    /// to the remaining free budget, and the last column absorbs whatever
    /// the rounding left over. Fails, changing nothing, when the window is
    /// too narrow for its columns and their separators.
    pub fn count_width(&mut self) -> (r: Result<(), LayoutError>)
        requires
            old(self).wf(),
        ensures
            final(self).wf(),
            r is Ok <==> old(self).valid_space() >= 1,
            r is Err ==> *final(self) == *old(self) && r == Err::<(), LayoutError>(
                LayoutError::InsufficientWidth,
            ),
            r is Ok ==> is_recompute_of(*final(self), *old(self)),
    {
        let n = self.col_label.len();
        if self.width <= 1 {
            return Err(LayoutError::InsufficientWidth);
        }
        if n as u64 >= (self.width - 1) as u64 {
            return Err(LayoutError::InsufficientWidth);
        }
        let space: i32 = self.width - 1 - (n as i32);
        let total: i32 = self.get_total_weight();
        let ghost pre = *old(self);
        let ghost ws = self.weight_seq();
        let ghost sp = space as int;
        let mut free: i32 = space;
        let mut i: usize = 0;
        proof {
            assert(ws.skip(0) =~= ws);
            assert(self.width_seq().take(0) =~= Seq::<int>::empty());
        }
        while i < n
            invariant
                i <= n,
                n == self.col_label@.len(),
                pre.wf(),
                ws == pre.weight_seq(),
                1 <= sp <= 0x7fff_ffff,
                sp == space as int,
                sp == pre.width - 1 - pre.col_count(),
                total as int == sum_of(ws),
                n as int <= total as int,
                self.width == pre.width,
                self.label_v_padd == pre.label_v_padd,
                self.col_label@.len() == pre.col_label@.len(),
                forall|j: int| 0 <= j < n ==> (#[trigger] self.col_label@[j]).tag
                    == pre.col_label@[j].tag && self.col_label@[j].weight
                    == pre.col_label@[j].weight,
                0 <= free <= sp,
                alloc_pass(ws, total as int, sp, sp) == self.width_seq().take(i as int)
                    + alloc_pass(ws.skip(i as int), total as int, sp, free as int),
                free as int == sp - sum_of(self.width_seq().take(i as int)),
            decreases n - i,
        {
            let ghost taken = self.width_seq().take(i as int);
            let w = self.col_label[i].weight;
            proof {
                assert(w as int == ws[i as int]);
                assert(1 <= w as int);
            }
            let wu = w as u64;
            let su = space as u64;
            let tu = total as u64;
            proof {
                assert((2 * wu) * su + tu < 0x8000_0000_0000_0000u64) by (nonlinear_arith)
                    requires
                        wu < 0x8000_0000u64,
                        su < 0x8000_0000u64,
                        tu < 0x8000_0000u64,
                ;
            }
            let q = ((2 * wu) * su + tu) / (2 * tu);
            proof {
                assert(q as int == rounded_share(ws[i as int], total as int, sp));
            }
            let t: i32 = if q <= free as u64 {
                q as i32
            } else {
                free
            };
            free = free - t;
            let tag_i = self.col_label[i].tag.clone();
            self.col_label[i] = SymbolWindowLabel { tag: tag_i, weight: w, wid: t };
            i = i + 1;
            proof {
                let rest = ws.skip(i - 1);
                assert(rest.first() == ws[i - 1]);
                assert(rest.drop_first() =~= ws.skip(i as int));
                assert(self.width_seq().take(i as int) =~= taken + seq![t as int]);
                assert(alloc_pass(rest, total as int, sp, sp - sum_of(taken)) == seq![t as int]
                    + alloc_pass(ws.skip(i as int), total as int, sp, free as int));
                assert(taken + (seq![t as int] + alloc_pass(
                    ws.skip(i as int),
                    total as int,
                    sp,
                    free as int,
                )) =~= (taken + seq![t as int]) + alloc_pass(
                    ws.skip(i as int),
                    total as int,
                    sp,
                    free as int,
                ));
                lemma_sum_concat(taken, seq![t as int]);
                assert(sum_of(seq![t as int]) == t as int) by {
                    assert(seq![t as int].drop_last() =~= Seq::<int>::empty());
                    assert(seq![t as int].last() == t as int);
                    assert(sum_of(Seq::<int>::empty()) == 0);
                }
            }
        }
        proof {
            assert(ws.skip(n as int) =~= Seq::<int>::empty());
            assert(self.width_seq().take(n as int) =~= self.width_seq());
            assert(alloc_pass(ws, total as int, sp, sp) =~= self.width_seq() + Seq::<
                int,
            >::empty());
            assert(self.width_seq() + Seq::<int>::empty() =~= self.width_seq());
            if n > 0 {
                lemma_alloc_pass_bounds(ws, total as int, sp, sp);
            }
        }
        let ghost pass = alloc_pass(ws, total as int, sp, sp);
        if n > 0 && free > 0 {
            proof {
                lemma_sum_element_le(pass, n - 1);
                assert(pass[n - 1] == self.col_label@[n - 1].wid as int);
            }
            let last_w = self.col_label[n - 1].weight;
            let last_wid = self.col_label[n - 1].wid;
            let tag_l = self.col_label[n - 1].tag.clone();
            self.col_label[n - 1] = SymbolWindowLabel {
                tag: tag_l,
                weight: last_w,
                wid: last_wid + free,
            };
        }
        self.clean = true;
        proof {
            assert(final(self).tag_seq() =~~= pre.tag_seq());
            assert(final(self).weight_seq() =~= pre.weight_seq());
            if n == 0 {
                assert(final(self).width_seq() =~= alloc_widths(ws, sp));
            } else {
                assert(final(self).width_seq() =~= pass.update(
                    n - 1,
                    pass.last() + (sp - sum_of(pass)),
                ));
            }
            let post = *self;
            assert forall|j: int| 0 <= j < post.col_count() implies 0 <= #[trigger] post.width_seq()[j] by {
                assert(0 <= pass[j]);
            }
        }
        Ok(())
    }

    /// Bring the computed widths up to date: recompute when stale, change
    /// nothing when already clean. The recompute failure is surfaced, not
    /// swallowed.
    pub fn refresh(&mut self) -> (r: Result<(), LayoutError>)
        requires
            old(self).wf(),
        ensures
            final(self).wf(),
            old(self).clean ==> r is Ok && *final(self) == *old(self),
            !old(self).clean && old(self).valid_space() >= 1 ==> r is Ok && is_recompute_of(
                *final(self),
                *old(self),
            ),
            !old(self).clean && old(self).valid_space() < 1 ==> r == Err::<(), LayoutError>(
                LayoutError::InsufficientWidth,
            ) && *final(self) == *old(self),
    {
        if self.clean {
            Ok(())
        } else {
            self.count_width()
        }
    }

    /// The computed column widths, in rendering order. Fails while the
    /// layout is stale.
    pub fn get_col_width(&self) -> (r: Result<Vec<i32>, LayoutError>)
        requires
            self.wf(),
        ensures
            self.clean <==> r is Ok,
            r is Ok ==> r->Ok_0@.map_values(|x: i32| x as int) == self.width_seq(),
            !self.clean ==> r == Err::<Vec<i32>, LayoutError>(LayoutError::StaleLayout),
    {
        if !self.clean {
            return Err(LayoutError::StaleLayout);
        }
        let n = self.col_label.len();
        let mut v: Vec<i32> = Vec::new();
        let mut i: usize = 0;
        while i < n
            invariant
                i <= n,
                n == self.col_label@.len(),
                v@.len() == i,
                forall|j: int| 0 <= j < i ==> #[trigger] v@[j] as int == self.width_seq()[j],
            decreases n - i,
        {
            v.push(self.col_label[i].wid);
            i = i + 1;
        }
        proof {
            assert(v@.map_values(|x: i32| x as int) =~= self.width_seq());
        }
        Ok(v)
    }
}

/// The widths that one allocation pass assigns are non-negative and use at
/// most the free budget.
proof fn lemma_alloc_pass_bounds(ws: Seq<int>, total: int, space: int, free: int)
    requires
        1 <= total,
        0 <= space,
        0 <= free,
        forall|i: int| 0 <= i < ws.len() ==> 0 <= #[trigger] ws[i],
    ensures
        alloc_pass(ws, total, space, free).len() == ws.len(),
        forall|i: int| 0 <= i < ws.len() ==> 0 <= #[trigger] alloc_pass(ws, total, space, free)[i],
        sum_of(alloc_pass(ws, total, space, free)) <= free,
    decreases ws.len(),
{
    if ws.len() > 0 {
        let q = rounded_share(ws.first(), total, space);
        lemma_rounded_share_nonneg(ws.first(), total, space);
        let t = if q <= free {
            q
        } else {
            free
        };
        let rest = alloc_pass(ws.drop_first(), total, space, free - t);
        assert(forall|i: int|
            0 <= i < ws.drop_first().len() ==> 0 <= #[trigger] ws.drop_first()[i]);
        lemma_alloc_pass_bounds(ws.drop_first(), total, space, free - t);
        lemma_sum_cons(t, rest);
        assert(forall|i: int|
            1 <= i < ws.len() ==> (seq![t] + rest)[i] == rest[i - 1]);
    }
}

/// A rounded proportional share of a non-negative weight is non-negative.
proof fn lemma_rounded_share_nonneg(weight: int, total: int, space: int)
    requires
        0 <= weight,
        1 <= total,
        0 <= space,
    ensures
        0 <= rounded_share(weight, total, space),
{
    vstd::arithmetic::mul::lemma_mul_nonnegative(2 * weight, space);
    vstd::arithmetic::div_mod::lemma_div_pos_is_pos(2 * weight * space + total, 2 * total);
}

/// The sum of a sequence with one element in front.
proof fn lemma_sum_cons(x: int, s: Seq<int>)
    ensures
        sum_of(seq![x] + s) == x + sum_of(s),
    decreases s.len(),
{
    if s.len() == 0 {
        assert(seq![x] + s =~= seq![x]);
        assert(seq![x].drop_last() =~= Seq::<int>::empty());
        assert(seq![x].last() == x);
        assert(sum_of(Seq::<int>::empty()) == 0);
    } else {
        assert((seq![x] + s).drop_last() =~= seq![x] + s.drop_last());
        assert((seq![x] + s).last() == s.last());
        lemma_sum_cons(x, s.drop_last());
    }
}

/// With every element at least one, the sum is at least the length.
proof fn lemma_sum_lower(s: Seq<int>)
    requires
        forall|j: int| 0 <= j < s.len() ==> 1 <= #[trigger] s[j],
    ensures
        s.len() <= sum_of(s),
    decreases s.len(),
{
    if s.len() > 0 {
        lemma_sum_lower(s.drop_last());
    }
}

/// Width conservation over the allocation: with positive weights and a
/// positive content budget, the allocated widths are non-negative and sum
/// exactly to the budget.
pub proof fn lemma_width_conservation(ws: Seq<int>, space: int)
    requires
        1 <= space,
        1 <= ws.len(),
        forall|i: int| 0 <= i < ws.len() ==> 1 <= #[trigger] ws[i],
    ensures
        alloc_widths(ws, space).len() == ws.len(),
        sum_of(alloc_widths(ws, space)) == space,
        forall|i: int| 0 <= i < ws.len() ==> 0 <= #[trigger] alloc_widths(ws, space)[i],
{
    let total = sum_of(ws);
    lemma_sum_lower(ws);
    lemma_alloc_pass_bounds(ws, total, space, space);
    let p = alloc_pass(ws, total, space, space);
    let leftover = space - sum_of(p);
    lemma_sum_element_le(p, ws.len() - 1);
    lemma_sum_update(p, ws.len() - 1, p.last() + leftover);
    assert forall|i: int| 0 <= i < ws.len() implies 0 <= #[trigger] alloc_widths(ws, space)[i] by {
        assert(0 <= p[i]);
    }
}

/// Width conservation at the window: after a recompute of a window wide
/// enough for its columns, the computed widths and the column separators
/// exactly fill the window's width.
pub proof fn lemma_window_width_conservation(pre: SymbolWindow, post: SymbolWindow)
    requires
        pre.wf(),
        1 <= pre.col_count(),
        pre.width >= pre.col_count() + 2,
        is_recompute_of(post, pre),
    ensures
        sum_of(post.width_seq()) + post.col_count() + 1 == post.width,
{
    lemma_width_conservation(pre.weight_seq(), pre.valid_space());
}

/// Recompute is idempotent: a window that was just recomputed, and not
/// mutated since, is clean, and recomputing it again would assign the very
/// same widths (so a second `refresh` changes nothing).
pub proof fn lemma_recompute_idempotent(pre: SymbolWindow, post: SymbolWindow)
    requires
        pre.wf(),
        is_recompute_of(post, pre),
    ensures
        post.clean,
        is_recompute_of(post, post),
{
}

/// The fields of a rendered row: for each column, its cell centered in the
/// column's width — a plain blank field when the cell is missing — followed
/// by one border character. Extra cells beyond the columns are ignored.
pub open spec fn row_fields(widths: Seq<int>, cells: Seq<Seq<char>>) -> Seq<char>
    decreases widths.len(),
{
    if widths.len() == 0 {
        Seq::empty()
    } else {
        let field = if cells.len() > 0 {
            centered_line(cells.first(), widths.first())
        } else {
            spaces(widths.first())
        };
        let rest_cells = if cells.len() > 0 {
            cells.drop_first()
        } else {
            cells
        };
        field + seq!['|'] + row_fields(widths.drop_first(), rest_cells)
    }
}

/// One rendered row: a leading border, the fields, and a line break.
pub open spec fn row_of(widths: Seq<int>, cells: Seq<Seq<char>>) -> Seq<char> {
    seq!['|'] + row_fields(widths, cells) + seq!['\n']
}

/// `line` repeated `n` times (none for `n <= 0`).
pub open spec fn repeat_line(line: Seq<char>, n: int) -> Seq<char>
    decreases n,
{
    if n <= 0 {
        Seq::empty()
    } else {
        line + repeat_line(line, n - 1)
    }
}

/// The cells still to render once `i` columns are done.
spec fn cells_from(cells: Seq<Seq<char>>, i: int) -> Seq<Seq<char>> {
    if 0 <= i <= cells.len() {
        cells.skip(i)
    } else {
        Seq::empty()
    }
}

impl SymbolWindow {
    /// A row of spaces between two single borders, spanning the window.
    pub open spec fn empty_line_of(&self) -> Seq<char> {
        seq!['|'] + spaces(self.width - 2) + seq!['|'] + seq!['\n']
    }

    /// Render one data row: each cell centered in its column's width, a
    /// blank field for each column without a cell, one border character
    /// before the first field and after every field, and a final line
    /// break. Fails while the layout is stale; never mutates the window.
    pub fn build_row(&self, data: &[String]) -> (r: Result<String, LayoutError>)
        requires
            self.wf(),
        ensures
            self.clean <==> r is Ok,
            r is Ok ==> r->Ok_0@ == row_of(self.width_seq(), data@.map_values(|c: String| c@)),
            !self.clean ==> r == Err::<String, LayoutError>(LayoutError::StaleLayout),
    {
        if !self.clean {
            return Err(LayoutError::StaleLayout);
        }
        let ghost wids = self.width_seq();
        let ghost cells = data@.map_values(|c: String| c@);
        let n = self.col_label.len();
        let mut s = String::from_str("|");
        let mut i: usize = 0;
        proof {
            reveal_strlit("|");
            assert(s@ =~= seq!['|']);
            assert(wids.skip(0) =~= wids);
            assert(cells_from(cells, 0) =~= cells);
            assert(seq!['|'] + row_fields(wids, cells) =~= s@ + row_fields(
                wids.skip(0),
                cells_from(cells, 0),
            ));
        }
        while i < n
            invariant
                i <= n,
                n == self.col_label@.len(),
                self.wf(),
                self.clean,
                wids == self.width_seq(),
                cells == data@.map_values(|c: String| c@),
                seq!['|'] + row_fields(wids, cells) == s@ + row_fields(
                    wids.skip(i as int),
                    cells_from(cells, i as int),
                ),
            decreases n - i,
        {
            let wid = self.col_label[i].wid;
            proof {
                assert(self.width_seq()[i as int] == wid as int);
                assert(0 <= wid);
                assert(wids.skip(i as int).first() == wids[i as int]);
                assert(wids.skip(i as int).drop_first() =~= wids.skip(i + 1));
            }
            let field = if i < data.len() {
                proof {
                    assert(cells[i as int] == data@[i as int]@);
                    assert(cells_from(cells, i as int).first() == cells[i as int]);
                    assert(cells_from(cells, i as int).drop_first() =~= cells_from(
                        cells,
                        i + 1,
                    ));
                }
                format_with_space_wrap(data[i].as_str(), wid as usize)
            } else {
                proof {
                    assert(cells_from(cells, i as int) =~= Seq::<Seq<char>>::empty());
                    assert(cells_from(cells, i + 1) =~= Seq::<Seq<char>>::empty());
                }
                format_space_line(wid as usize)
            };
            s.append(field.as_str());
            s.append("|");
            i = i + 1;
            proof {
                reveal_strlit("|");
                assert(seq!['|'] + row_fields(wids, cells) =~= s@ + row_fields(
                    wids.skip(i as int),
                    cells_from(cells, i as int),
                ));
            }
        }
        s.append("\n");
        proof {
            reveal_strlit("\n");
            assert(wids.skip(n as int) =~= Seq::<int>::empty());
            assert(s@ =~= row_of(wids, cells));
        }
        Ok(s)
    }

    /// A blank line spanning the window between two single borders. Fails
    /// when the window is too narrow for the two borders.
    pub fn build_empty_line(&self) -> (r: Result<String, LayoutError>)
        ensures
            r is Ok <==> self.width > 2,
            r is Ok ==> r->Ok_0@ == self.empty_line_of(),
            self.width <= 2 ==> r == Err::<String, LayoutError>(LayoutError::InsufficientWidth),
    {
        if self.width <= 2 {
            return Err(LayoutError::InsufficientWidth);
        }
        let mut s = String::from_str("|");
        let body = format_space_line((self.width - 2) as usize);
        s.append(body.as_str());
        s.append("|");
        s.append("\n");
        proof {
            reveal_strlit("|");
            reveal_strlit("\n");
            assert(s@ =~= self.empty_line_of());
        }
        Ok(s)
    }
}

/// Appending one more copy on the right matches one more repetition.
proof fn lemma_repeat_line_snoc(line: Seq<char>, n: int)
    requires
        0 <= n,
    ensures
        repeat_line(line, n) + line == repeat_line(line, n + 1),
    decreases n,
{
    if n == 0 {
        assert(repeat_line(line, 0) + line =~= line + repeat_line(line, 0));
    } else {
        lemma_repeat_line_snoc(line, n - 1);
        assert(repeat_line(line, n) + line =~= line + (repeat_line(line, n - 1) + line));
    }
}

impl SymbolWindow {
    /// The blank rows above and below the title row.
    pub open spec fn pad_lines_of(&self) -> Seq<char> {
        repeat_line(row_of(self.width_seq(), Seq::empty()), self.label_v_padd as int)
    }

    /// The corner-margin dash border spanning the window, with line break.
    pub open spec fn border_of(&self) -> Seq<char> {
        dash_wrapped(Seq::empty(), self.width as int, 0, seq!['+']) + seq!['\n']
    }

    /// The full title band: border, blank rows, the column labels each
    /// centered in its column, blank rows, border.
    pub open spec fn title_of(&self) -> Seq<char> {
        self.border_of() + self.pad_lines_of() + row_of(self.width_seq(), self.tag_seq())
            + self.pad_lines_of() + self.border_of()
    }

    /// A labelled section divider spanning the window: a single border and
    /// one space as margin, one space of inner padding, with line break.
    pub open spec fn div_of(&self, label: Seq<char>) -> Seq<char> {
        dash_wrapped(label, self.width as int, 1, seq!['|', ' ']) + seq!['\n']
    }

    /// The vertical padding of the title band: `label_v_padd` blank data
    /// rows. Fails while the layout is stale.
    pub fn build_title_space_line(&self) -> (r: Result<String, LayoutError>)
        requires
            self.wf(),
        ensures
            self.clean <==> r is Ok,
            r is Ok ==> r->Ok_0@ == self.pad_lines_of(),
            !self.clean ==> r == Err::<String, LayoutError>(LayoutError::StaleLayout),
    {
        if !self.clean {
            return Err(LayoutError::StaleLayout);
        }
        let ghost blank = row_of(self.width_seq(), Seq::empty());
        let no_cells: Vec<String> = Vec::new();
        let mut s = String::new();
        let mut i: i32 = 0;
        proof {
            assert(no_cells@.map_values(|c: String| c@) =~= Seq::<Seq<char>>::empty());
            assert(s@ =~= repeat_line(blank, 0));
        }
        while i < self.label_v_padd
            invariant
                0 <= i,
                i <= self.label_v_padd || i == 0,
                self.wf(),
                self.clean,
                no_cells@.len() == 0,
                blank == row_of(self.width_seq(), Seq::empty()),
                s@ == repeat_line(blank, i as int),
            decreases self.label_v_padd - i,
        {
            let row = match self.build_row(no_cells.as_slice()) {
                Ok(row) => row,
                Err(_) => {
                    proof {
                        assert(false);
                    }
                    String::new()
                },
            };
            proof {
                assert(no_cells@.map_values(|c: String| c@) =~= Seq::<Seq<char>>::empty());
                lemma_repeat_line_snoc(blank, i as int);
            }
            s.append(row.as_str());
            i = i + 1;
        }
        Ok(s)
    }

    /// Render the title band: a dash border, the vertical padding, one row
    /// with each column label centered in its column's width, the padding
    /// again, and a closing dash border. Fails while the layout is stale.
    pub fn build_title(&self) -> (r: Result<String, LayoutError>)
        requires
            self.wf(),
        ensures
            self.clean <==> r is Ok,
            r is Ok ==> r->Ok_0@ == self.title_of(),
            !self.clean ==> r == Err::<String, LayoutError>(LayoutError::StaleLayout),
    {
        if !self.clean {
            return Err(LayoutError::StaleLayout);
        }
        proof {
            reveal_strlit("");
            reveal_strlit("+");
            reveal_strlit("\n");
            assert("+"@ =~= seq!['+']);
            assert(""@ =~= Seq::<char>::empty());
        }
        let mut s = format_with_dash_wrap("", self.get_width() as usize, 0, "+");
        s.append("\n");
        let pad = match self.build_title_space_line() {
            Ok(pad) => pad,
            Err(_) => {
                proof {
                    assert(false);
                }
                String::new()
            },
        };
        s.append(pad.as_str());
        let n = self.col_label.len();
        let mut tag_cells: Vec<String> = Vec::new();
        let mut i: usize = 0;
        while i < n
            invariant
                i <= n,
                n == self.col_label@.len(),
                tag_cells@.len() == i,
                forall|j: int| 0 <= j < i ==> #[trigger] tag_cells@[j]@ == self.tag_seq()[j],
            decreases n - i,
        {
            tag_cells.push(self.col_label[i].tag.clone());
            i = i + 1;
        }
        let title_row = match self.build_row(tag_cells.as_slice()) {
            Ok(row) => row,
            Err(_) => {
                proof {
                    assert(false);
                }
                String::new()
            },
        };
        proof {
            assert(tag_cells@.map_values(|c: String| c@) =~~= self.tag_seq());
        }
        s.append(title_row.as_str());
        s.append(pad.as_str());
        let bottom = format_with_dash_wrap("", self.get_width() as usize, 0, "+");
        s.append(bottom.as_str());
        s.append("\n");
        proof {
            reveal_strlit("\n");
            assert(s@ =~= self.title_of());
        }
        Ok(s)
    }

    /// Render a labelled section divider spanning the window, margined by a
    /// single border and one space, with one space of inner padding around
    /// the label. Fails while the layout is stale, and when the window is
    /// too narrow for margins and padding.
    pub fn build_div(&self, name: &str) -> (r: Result<String, LayoutError>)
        requires
            self.wf(),
        ensures
            r is Ok <==> self.clean && self.width >= 6,
            r is Ok ==> r->Ok_0@ == self.div_of(name@),
            !self.clean ==> r == Err::<String, LayoutError>(LayoutError::StaleLayout),
            self.clean && self.width < 6 ==> r == Err::<String, LayoutError>(
                LayoutError::InsufficientWidth,
            ),
    {
        if !self.clean {
            return Err(LayoutError::StaleLayout);
        }
        if self.width < 6 {
            return Err(LayoutError::InsufficientWidth);
        }
        proof {
            reveal_strlit("| ");
            reveal_strlit("\n");
            assert("| "@ =~= seq!['|', ' ']);
        }
        let mut s = format_with_dash_wrap(name, self.get_width() as usize, 1, "| ");
        s.append("\n");
        proof {
            assert(s@ =~= self.div_of(name@));
        }
        Ok(s)
    }

    /// The borderless closing line: a corner-margin dash border spanning
    /// the window, with line break. Fails when the window is too narrow for
    /// the two corners.
    pub fn build_foot(&self) -> (r: Result<String, LayoutError>)
        ensures
            r is Ok <==> self.width >= 2,
            r is Ok ==> r->Ok_0@ == self.border_of(),
            self.width < 2 ==> r == Err::<String, LayoutError>(LayoutError::InsufficientWidth),
    {
        if self.width < 2 {
            return Err(LayoutError::InsufficientWidth);
        }
        proof {
            reveal_strlit("");
            reveal_strlit("+");
            reveal_strlit("\n");
            assert("+"@ =~= seq!['+']);
            assert(""@ =~= Seq::<char>::empty());
        }
        let mut s = format_with_dash_wrap("", self.get_width() as usize, 0, "+");
        s.append("\n");
        proof {
            assert(s@ =~= self.border_of());
        }
        Ok(s)
    }
}

/// Weight-ratio scaling: with three equal-weight columns, doubling the
/// first column's weight takes effect and makes that weight exactly half of
/// the new total weight.
pub proof fn lemma_double_first_of_three_equal(w: SymbolWindow)
    requires
        w.wf(),
        w.col_count() == 3,
        w.weight_seq()[0] == w.weight_seq()[1],
        w.weight_seq()[1] == w.weight_seq()[2],
        sum_of(w.weight_seq()) + w.weight_seq()[0] <= i32::MAX,
    ensures
        weight_change_applies(w.weight_seq()[0], sum_of(w.weight_seq()), 2, 1),
        2 * adjusted_weight(w.weight_seq()[0], 2, 1) == sum_of(
            w.weight_seq().update(0, adjusted_weight(w.weight_seq()[0], 2, 1)),
        ),
{
    let ws = w.weight_seq();
    let v = ws[0];
    let a = ws.drop_last();
    let b = a.drop_last();
    assert(b.drop_last() =~= Seq::<int>::empty());
    assert(sum_of(Seq::<int>::empty()) == 0);
    assert(b.last() == ws[0] && a.last() == ws[1] && ws.last() == ws[2]);
    assert(sum_of(b) == v);
    assert(sum_of(a) == 2 * v);
    assert(sum_of(ws) == 3 * v);
    assert(adjusted_weight(v, 2, 1) == 2 * v) by {
        vstd::arithmetic::div_mod::lemma_fundamental_div_mod(v * 2, 1);
    }
    assert(1 <= v);
    lemma_sum_update(ws, 0, 2 * v);
}

/// The sum after replacing element `k` changes by the difference.
proof fn lemma_sum_update(s: Seq<int>, k: int, v: int)
    requires
        0 <= k < s.len(),
    ensures
        sum_of(s.update(k, v)) == sum_of(s) - s[k] + v,
    decreases s.len(),
{
    let t = s.update(k, v);
    if k == s.len() - 1 {
        assert(t.drop_last() =~= s.drop_last());
        assert(t.last() == v);
    } else {
        assert(t.drop_last() =~= s.drop_last().update(k, v));
        assert(t.last() == s.last());
        lemma_sum_update(s.drop_last(), k, v);
    }
}

/// With non-negative elements, each element is at most the sum.
proof fn lemma_sum_element_le(s: Seq<int>, k: int)
    requires
        0 <= k < s.len(),
        forall|j: int| 0 <= j < s.len() ==> 0 <= #[trigger] s[j],
    ensures
        s[k] <= sum_of(s),
    decreases s.len(),
{
    if k == s.len() - 1 {
        lemma_sum_nonneg(s.drop_last());
    } else {
        lemma_sum_element_le(s.drop_last(), k);
    }
}

/// The sum of non-negative elements is non-negative.
proof fn lemma_sum_nonneg(s: Seq<int>)
    requires
        forall|j: int| 0 <= j < s.len() ==> 0 <= #[trigger] s[j],
    ensures
        0 <= sum_of(s),
    decreases s.len(),
{
    if s.len() > 0 {
        lemma_sum_nonneg(s.drop_last());
    }
}

/// `sum_of` of one more element: taking `i + 1` elements adds `s[i]`.
proof fn lemma_sum_take_step(s: Seq<int>, i: int)
    requires
        0 <= i < s.len(),
    ensures
        sum_of(s.take(i + 1)) == sum_of(s.take(i)) + s[i],
{
    assert(s.take(i + 1).drop_last() =~= s.take(i));
    assert(s.take(i + 1).last() == s[i]);
}

/// With non-negative elements, a prefix sum never exceeds the full sum.
proof fn lemma_sum_prefix_le(s: Seq<int>, i: int)
    requires
        0 <= i <= s.len(),
        forall|j: int| 0 <= j < s.len() ==> 0 <= #[trigger] s[j],
    ensures
        sum_of(s.take(i)) <= sum_of(s),
    decreases s.len() - i,
{
    if i == s.len() {
        assert(s.take(i) =~= s);
    } else {
        lemma_sum_take_step(s, i);
        lemma_sum_prefix_le(s, i + 1);
    }
}

/// The sum of a concatenation is the sum of the parts.
proof fn lemma_sum_concat(a: Seq<int>, b: Seq<int>)
    ensures
        sum_of(a + b) == sum_of(a) + sum_of(b),
    decreases b.len(),
{
    if b.len() == 0 {
        assert(a + b =~= a);
    } else {
        assert((a + b).drop_last() =~= a + b.drop_last());
        assert((a + b).last() == b.last());
        lemma_sum_concat(a, b.drop_last());
    }
}

/// The sum of `n` copies of `v` is `n * v`.
proof fn lemma_sum_constant(s: Seq<int>, v: int)
    requires
        forall|j: int| 0 <= j < s.len() ==> #[trigger] s[j] == v,
    ensures
        sum_of(s) == s.len() * v,
    decreases s.len(),
{
    if s.len() > 0 {
        lemma_sum_constant(s.drop_last(), v);
        assert(s.len() * v == (s.len() - 1) * v + v) by (nonlinear_arith);
    }
}

} // verus!
