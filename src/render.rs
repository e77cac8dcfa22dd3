//! Turning the values that a program produced into one block of text.
//!
//! The engine's output is modelled as a closed set of item kinds: a scalar
//! already formatted by the engine, a row of named fields, an error value, and
//! any other kind, which arrives as the engine's generic text for it. A row is
//! drawn as a two-column table (field name, field value) with each value cut
//! at `VALUE_LIMIT` characters; each item's text is followed by a newline; an
//! error value stops rendering and becomes the invocation's failure.
//!
//! nu-table keeps terminal styling in what it draws when the process's
//! standard output is a terminal and removes it otherwise, so the text of a
//! row depends on that state too. The contracts below speak of it as one
//! `bool` per item (`ts`): whichever it was when that item was drawn.
use vstd::prelude::*;

use crate::error::HandlerError;
use crate::text::{append_text, chars_of, push_char, string_of};

verus! {

/// The display width that tables are drawn to.
pub const TABLE_WIDTH: usize = 280;

/// The most characters of a field value that a row shows.
pub const VALUE_LIMIT: usize = 100_000;

/// One value of the engine's output stream.
#[derive(Debug, Clone, PartialEq, Eq)]
pub enum Item {
    /// A primitive value, as the engine formats it.
    Scalar(String),
    /// A record: its field names and values, in order, each value formatted.
    Row(Vec<(String, String)>),
    /// An error value, with the engine's description of it.
    Error(String),
    /// A value of any other kind, as the engine describes it.
    Other(String),
}

/// An item as mathematical text.
pub ghost enum ItemView {
    Scalar(Seq<char>),
    Row(Seq<(Seq<char>, Seq<char>)>),
    Error(Seq<char>),
    Other(Seq<char>),
}

/// The view of a list of (name, value) pairs.
pub open spec fn pairs(v: Seq<(String, String)>) -> Seq<(Seq<char>, Seq<char>)> {
    v.map_values(|p: (String, String)| (p.0@, p.1@))
}

impl View for Item {
    type V = ItemView;

    open spec fn view(&self) -> ItemView {
        match self {
            Item::Scalar(s) => ItemView::Scalar(s@),
            Item::Row(f) => ItemView::Row(pairs(f@)),
            Item::Error(s) => ItemView::Error(s@),
            Item::Other(s) => ItemView::Other(s@),
        }
    }
}

/// The view of a list of items.
pub open spec fn item_views(v: Seq<Item>) -> Seq<ItemView> {
    v.map_values(|i: Item| i@)
}

/// What `nu_table::draw_table` draws for a headerless two-column table whose
/// rows are `fields`, at display width `width`, in a process whose standard
/// output is a terminal (`on_terminal`) or not.
pub uninterp spec fn drawn_fields(
    fields: Seq<(Seq<char>, Seq<char>)>,
    width: nat,
    on_terminal: bool,
) -> Seq<char>;

/// Relies on `nu_table::draw_table` (with `Table::new` and `Theme::compact`):
/// draws the fields as a headerless table of one row per field, name on the
/// left, value on the right, with no colour map. What it draws depends also on
/// whether standard output is a terminal; a table without rows draws as the
/// empty text.
#[verifier::external_body]
fn draw_fields(fields: &Vec<(String, String)>, width: usize) -> (r: String)
    requires
        width >= 80,
    ensures
        exists|t: bool| r@ == drawn_fields(pairs(fields@), width as nat, t),
        fields.len() == 0 ==> r@.len() == 0,
{
    let cell = |s: &String| nu_table::StyledString::new(s.clone(), nu_table::TextStyle::basic_left());
    let data = fields.iter().map(|(k, v)| vec![cell(k), cell(v)]).collect();
    let table = nu_table::Table::new(vec![], data, nu_table::Theme::compact());
    nu_table::draw_table(&table, width, &std::collections::HashMap::new())
}

/// `s` cut to at most `VALUE_LIMIT` characters.
pub open spec fn clipped(s: Seq<char>) -> Seq<char> {
    if s.len() <= VALUE_LIMIT {
        s
    } else {
        s.take(VALUE_LIMIT as int)
    }
}

/// The fields with each value cut to at most `VALUE_LIMIT` characters.
pub open spec fn clip_values(f: Seq<(Seq<char>, Seq<char>)>) -> Seq<(Seq<char>, Seq<char>)> {
    f.map_values(|p: (Seq<char>, Seq<char>)| (p.0, clipped(p.1)))
}

/// The text that shows one item, drawn with standard output a terminal
/// (`on_terminal`) or not; only a row depends on it.
pub open spec fn view_text(i: ItemView, on_terminal: bool) -> Seq<char> {
    match i {
        ItemView::Scalar(t) => t,
        ItemView::Row(f) => drawn_fields(clip_values(f), TABLE_WIDTH as nat, on_terminal),
        ItemView::Error(t) => t,
        ItemView::Other(t) => t,
    }
}

/// The text of a stream of items, each followed by a newline, or the
/// description of its first error value; item `k` is drawn in terminal state
/// `ts[k]`.
pub open spec fn rendered(items: Seq<ItemView>, ts: Seq<bool>) -> Result<Seq<char>, Seq<char>>
    decreases items.len(),
{
    if items.len() == 0 {
        Ok(Seq::<char>::empty())
    } else {
        match rendered(items.drop_last(), ts) {
            Err(e) => Err(e),
            Ok(acc) => match items.last() {
                ItemView::Error(e) => Err(e),
                x => Ok(acc + view_text(x, ts[items.len() - 1]) + seq!['\n']),
            },
        }
    }
}

/// Whether the stream holds a row, the one kind whose text depends on the
/// terminal state.
pub open spec fn has_row(items: Seq<ItemView>) -> bool {
    exists|k: int| 0 <= k < items.len() && #[trigger] items[k] is Row
}

/// Rendering reads the terminal states of the items it draws and no others.
pub proof fn lemma_rendered_prefix(items: Seq<ItemView>, ts1: Seq<bool>, ts2: Seq<bool>)
    requires
        ts1.len() >= items.len(),
        ts2.len() >= items.len(),
        forall|i: int| 0 <= i < items.len() ==> ts1[i] == ts2[i],
    ensures
        rendered(items, ts1) == rendered(items, ts2),
    decreases items.len(),
{
    if items.len() > 0 {
        lemma_rendered_prefix(items.drop_last(), ts1, ts2);
    }
}

/// A stream without rows renders the same whatever the terminal states.
pub proof fn lemma_rendered_without_rows(items: Seq<ItemView>, ts1: Seq<bool>, ts2: Seq<bool>)
    requires
        !has_row(items),
        ts1.len() >= items.len(),
        ts2.len() >= items.len(),
    ensures
        rendered(items, ts1) == rendered(items, ts2),
    decreases items.len(),
{
    if items.len() > 0 {
        let n = items.len() - 1;
        assert(!has_row(items.drop_last())) by {
            if has_row(items.drop_last()) {
                let k = choose|k: int| 0 <= k < items.drop_last().len() && #[trigger] items.drop_last()[k] is Row;
                assert(items[k] is Row);
            }
        }
        lemma_rendered_without_rows(items.drop_last(), ts1, ts2);
        assert(!(items[n] is Row));
    }
}

/// Once a prefix of a stream holds an error value, the whole stream renders
/// to that error.
pub proof fn lemma_error_persists(items: Seq<ItemView>, ts: Seq<bool>, k: int)
    requires
        0 <= k <= items.len(),
        rendered(items.take(k), ts) is Err,
    ensures
        rendered(items, ts) == rendered(items.take(k), ts),
    decreases items.len() - k,
{
    if k < items.len() {
        assert(items.take(k + 1).drop_last() =~= items.take(k));
        lemma_error_persists(items, ts, k + 1);
    } else {
        assert(items.take(k) =~= items);
    }
}

/// `ts` padded to length `n` with `false`.
pub open spec fn padded(ts: Seq<bool>, n: nat) -> Seq<bool> {
    ts + Seq::new((n - ts.len()) as nat, |i: int| false)
}

fn clip(s: &String) -> (r: String)
    ensures
        r@ == clipped(s@),
{
    let v = chars_of(s.as_str());
    let n = if v.len() <= VALUE_LIMIT { v.len() } else { VALUE_LIMIT };
    let r = string_of(&v, 0, n);
    assert(v@.subrange(0, v@.len() as int) =~= v@);
    r
}

/// The text that shows `item`.
pub fn view_item(item: &Item) -> (r: String)
    ensures
        exists|t: bool| r@ == view_text(item@, t),
{
    match item {
        Item::Scalar(s) => {
            let r = s.clone();
            assert(r@ == view_text(item@, false));
            r
        },
        Item::Error(s) => {
            let r = s.clone();
            assert(r@ == view_text(item@, false));
            r
        },
        Item::Other(s) => {
            let r = s.clone();
            assert(r@ == view_text(item@, false));
            r
        },
        Item::Row(fields) => {
            let mut cut: Vec<(String, String)> = Vec::new();
            let mut k: usize = 0;
            while k < fields.len()
                invariant
                    k <= fields.len(),
                    pairs(cut@) == clip_values(pairs(fields@)).take(k as int),
                decreases fields.len() - k,
            {
                let name = fields[k].0.clone();
                let value = clip(&fields[k].1);
                let ghost before = cut@;
                assert(name@ == fields@[k as int].0@);
                cut.push((name, value));
                assert(pairs(cut@) =~= pairs(before).push((name@, value@)));
                assert(pairs(cut@) =~= clip_values(pairs(fields@)).take(k + 1));
                k = k + 1;
            }
            assert(clip_values(pairs(fields@)).take(fields.len() as int) =~= clip_values(
                pairs(fields@),
            ));
            let r = draw_fields(&cut, TABLE_WIDTH);
            let ghost t = choose|t: bool| r@ == drawn_fields(pairs(cut@), TABLE_WIDTH as nat, t);
            assert(r@ == view_text(item@, t));
            r
        },
    }
}

/// The text of each item of the stream, in order, or `RuntimeError` with the
/// description of its first error value.
pub fn discordview(items: &Vec<Item>) -> (r: Result<Vec<String>, HandlerError>)
    ensures
        exists|ts: Seq<bool>|
            ts.len() == items.len() && match rendered(item_views(items@), ts) {
                Ok(_) => r is Ok && r->Ok_0.len() == items.len() && forall|k: int|
                    0 <= k < items.len() ==> #[trigger] r->Ok_0@[k]@ == view_text(items@[k]@, ts[k]),
                Err(e) => r is Err && r->Err_0 is RuntimeError && r->Err_0->RuntimeError_0@ == e,
            },
{
    let ghost all = item_views(items@);
    let ghost mut ts: Seq<bool> = Seq::empty();
    let mut out: Vec<String> = Vec::new();
    let mut k: usize = 0;
    assert(all.take(0) =~= Seq::<ItemView>::empty());
    while k < items.len()
        invariant
            k <= items.len(),
            all == item_views(items@),
            ts.len() == k,
            out.len() == k,
            rendered(all.take(k as int), ts) is Ok,
            forall|j: int| 0 <= j < k ==> #[trigger] out@[j]@ == view_text(items@[j]@, ts[j]),
        decreases items.len() - k,
    {
        assert(all.take(k + 1).drop_last() =~= all.take(k as int));
        assert(all.take(k + 1).last() == items@[k as int]@);
        match &items[k] {
            Item::Error(e) => {
                let ghost full = padded(ts, items.len() as nat);
                proof {
                    assert(full.len() == items.len());
                    assert forall|i: int| 0 <= i < k implies ts[i] == full[i] by {}
                    lemma_rendered_prefix(all.take(k as int), ts, full);
                    assert(rendered(all.take(k + 1), full) == Err::<Seq<char>, Seq<char>>(e@));
                    lemma_error_persists(all, full, k + 1);
                }
                let r = Err(HandlerError::RuntimeError(e.clone()));
                assert(rendered(item_views(items@), full) == Err::<Seq<char>, Seq<char>>(e@));
                return r;
            },
            item => {
                assert(!(items@[k as int]@ is Error));
                let t = view_item(item);
                let ghost tt = choose|tt: bool| t@ == view_text(items@[k as int]@, tt);
                proof {
                    lemma_rendered_prefix(all.take(k as int), ts, ts.push(tt));
                    ts = ts.push(tt);
                }
                out.push(t);
            },
        }
        k = k + 1;
    }
    assert(all.take(items.len() as int) =~= all);
    Ok(out)
}

/// The text of the whole stream, or `RuntimeError` with the description of its
/// first error value.
pub fn render_items(items: &Vec<Item>) -> (r: Result<String, HandlerError>)
    ensures
        exists|ts: Seq<bool>|
            ts.len() == items.len() && match rendered(item_views(items@), ts) {
                Ok(t) => r is Ok && r->Ok_0@ == t,
                Err(e) => r is Err && r->Err_0 is RuntimeError && r->Err_0->RuntimeError_0@ == e,
            },
{
    let ghost all = item_views(items@);
    let ghost mut ts: Seq<bool> = Seq::empty();
    let mut out = String::new();
    let mut k: usize = 0;
    assert(all.take(0) =~= Seq::<ItemView>::empty());
    while k < items.len()
        invariant
            k <= items.len(),
            all == item_views(items@),
            ts.len() == k,
            rendered(all.take(k as int), ts) == Ok::<Seq<char>, Seq<char>>(out@),
        decreases items.len() - k,
    {
        assert(all.take(k + 1).drop_last() =~= all.take(k as int));
        assert(all.take(k + 1).last() == items@[k as int]@);
        match &items[k] {
            Item::Error(e) => {
                let ghost full = padded(ts, items.len() as nat);
                proof {
                    assert(full.len() == items.len());
                    assert forall|i: int| 0 <= i < k implies ts[i] == full[i] by {}
                    lemma_rendered_prefix(all.take(k as int), ts, full);
                    assert(rendered(all.take(k + 1), full) == Err::<Seq<char>, Seq<char>>(e@));
                    lemma_error_persists(all, full, k + 1);
                }
                let r = Err(HandlerError::RuntimeError(e.clone()));
                assert(rendered(item_views(items@), full) == Err::<Seq<char>, Seq<char>>(e@));
                return r;
            },
            item => {
                let ghost before = out@;
                assert(!(items@[k as int]@ is Error));
                let t = view_item(item);
                let ghost tt = choose|tt: bool| t@ == view_text(items@[k as int]@, tt);
                proof {
                    lemma_rendered_prefix(all.take(k as int), ts, ts.push(tt));
                    ts = ts.push(tt);
                }
                append_text(&mut out, &t);
                push_char(&mut out, '\n');
                assert(out@ =~= before + view_text(items@[k as int]@, tt) + seq!['\n']);
            },
        }
        k = k + 1;
    }
    assert(all.take(items.len() as int) =~= all);
    Ok(out)
}

} // verus!
