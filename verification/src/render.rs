//! The abstract render plan: for each mode, an ordered list of positioned
//! text spans, each flagged normal or highlighted, derived purely from the
//! editor state. A terminal front end only paints these spans; it decides
//! nothing about their content or placement.

use vstd::prelude::*;
use vstd::string::{StrSliceExecFns, StringExecFns};

use unicode_segmentation::UnicodeSegmentation;

use crate::domain::{Domain, DomainView};
use crate::editor::{state_inv, Mode, State, StateView};

verus! {

/// The width of the drawn boxes, in character cells.
pub const BOX_WIDTH: usize = 55;

/// One positioned text span of a render plan.
pub struct Span {
    pub x: usize,
    pub y: usize,
    pub text: String,
    pub inverted: bool,
}

/// The mathematical value of a `Span`.
pub ghost struct SpanView {
    pub x: int,
    pub y: int,
    pub text: Seq<char>,
    pub inverted: bool,
}

impl View for Span {
    type V = SpanView;

    open spec fn view(&self) -> SpanView {
        SpanView {
            x: self.x as int,
            y: self.y as int,
            text: self.text@,
            inverted: self.inverted,
        }
    }
}

/// The value of a whole plan: the views of its spans, in order.
pub open spec fn spans_view(s: Seq<Span>) -> Seq<SpanView> {
    s.map_values(|sp: Span| sp@)
}

pub open spec fn span_at(x: int, y: int, text: Seq<char>, inverted: bool) -> SpanView {
    SpanView { x, y, text, inverted }
}

/// The grapheme clusters of a character sequence, as the segmentation
/// crate cuts them; named here, not restated.
pub uninterp spec fn graphemes_of(s: Seq<char>) -> Seq<Seq<char>>;

/// The concatenation of a sequence of character sequences.
pub open spec fn concat_all(gs: Seq<Seq<char>>) -> Seq<char>
    decreases gs.len(),
{
    if gs.len() == 0 {
        Seq::empty()
    } else {
        concat_all(gs.drop_last()) + gs.last()
    }
}

/// Relies on `UnicodeSegmentation::graphemes` with extended clusters: cuts
/// the string into grapheme clusters; concatenated, they are the string.
#[verifier::external_body]
fn graphemes_vec<'a>(s: &'a str) -> (r: Vec<&'a str>)
    ensures
        r@.map_values(|g: &str| g@) == graphemes_of(s@),
        concat_all(r@.map_values(|g: &str| g@)) == s@,
{
    s.graphemes(true).collect()
}

/// Shortening for display: a string of more than `n` characters is cut to
/// its first grapheme clusters (at most `n - 3` of them) plus an ellipsis.
pub open spec fn truncate_spec(s: Seq<char>, n: int) -> Seq<char> {
    if s.len() <= n {
        s
    } else {
        let gs = graphemes_of(s);
        let k: int = if n - 3 <= gs.len() {
            n - 3
        } else {
            gs.len() as int
        };
        concat_all(gs.take(k)) + "..."@
    }
}

/// The trailing end for display: a string of more than `n` characters
/// keeps only its later grapheme clusters, dropping the first
/// `len - n` of them.
pub open spec fn last_n_spec(s: Seq<char>, n: int) -> Seq<char> {
    if s.len() <= n {
        s
    } else {
        let gs = graphemes_of(s);
        let k: int = if s.len() - n <= gs.len() {
            s.len() - n
        } else {
            gs.len() as int
        };
        concat_all(gs.skip(k))
    }
}

/// Shortens `s` for display to at most `n` cells, closing with an
/// ellipsis when something was cut.
pub fn truncate(s: &str, n: usize) -> (r: String)
    requires
        n >= 3,
    ensures
        r@ == truncate_spec(s@, n as int),
{
    let len = s.unicode_len();
    if len <= n {
        return s.to_owned();
    }
    let gs = graphemes_vec(s);
    let ghost gsv = graphemes_of(s@);
    proof {
        assert(gs@.len() == gsv.len());
    }
    let k: usize = if n - 3 <= gs.len() {
        n - 3
    } else {
        gs.len()
    };
    let mut out = String::new();
    let mut i: usize = 0;
    proof {
        assert(gsv.take(0) =~= Seq::<Seq<char>>::empty());
    }
    while i < k
        invariant
            i <= k <= gs@.len(),
            gs@.map_values(|g: &str| g@) == gsv,
            out@ == concat_all(gsv.take(i as int)),
        decreases k - i,
    {
        let g = gs[i];
        out.append(g);
        proof {
            assert(gs@[i as int]@ == gsv[i as int]);
            assert(gsv.take(i + 1).drop_last() =~= gsv.take(i as int));
            assert(gsv.take(i + 1).last() == gsv[i as int]);
            assert(out@ =~= concat_all(gsv.take(i + 1)));
        }
        i = i + 1;
    }
    out.append("...");
    out
}

/// The last `n` cells of `s` for display: earlier grapheme clusters are
/// dropped until at most `n` characters would remain.
pub fn last_n_chars(s: &str, n: usize) -> (r: String)
    ensures
        r@ == last_n_spec(s@, n as int),
{
    let len = s.unicode_len();
    if len <= n {
        return s.to_owned();
    }
    let gs = graphemes_vec(s);
    let ghost gsv = graphemes_of(s@);
    proof {
        assert(gs@.len() == gsv.len());
    }
    let k: usize = if len - n <= gs.len() {
        len - n
    } else {
        gs.len()
    };
    let mut out = String::new();
    let mut i: usize = k;
    proof {
        assert(gsv.subrange(k as int, k as int) =~= Seq::<Seq<char>>::empty());
    }
    while i < gs.len()
        invariant
            k <= i <= gs@.len(),
            gs@.map_values(|g: &str| g@) == gsv,
            out@ == concat_all(gsv.subrange(k as int, i as int)),
        decreases gs@.len() - i,
    {
        let g = gs[i];
        out.append(g);
        proof {
            assert(gs@[i as int]@ == gsv[i as int]);
            assert(gsv.subrange(k as int, i + 1).drop_last() =~= gsv.subrange(k as int, i as int));
            assert(gsv.subrange(k as int, i + 1).last() == gsv[i as int]);
            assert(out@ =~= concat_all(gsv.subrange(k as int, i + 1)));
        }
        i = i + 1;
    }
    proof {
        assert(gsv.subrange(k as int, gsv.len() as int) =~= gsv.skip(k as int));
    }
    out
}

/// The marker put before a domain name when it is listed: a filled or an
/// empty checkbox.
pub open spec fn render_domain_spec(d: DomainView) -> Seq<char> {
    (if d.status is Blocked {
        "[x] "@
    } else {
        "[ ] "@
    }) + d.url
}

/// One listed domain: its checkbox and its name.
pub fn render_domain(domain: &Domain) -> (r: String)
    ensures
        r@ == render_domain_spec(domain@),
{
    let mut out: String = if matches!(domain.status, crate::domain::DomainStatus::Blocked) {
        "[x] ".to_owned()
    } else {
        "[ ] ".to_owned()
    };
    out.append(domain.url.as_str());
    out
}

/// `s`, repeated `n` times.
pub open spec fn repeat_spec(s: Seq<char>, n: int) -> Seq<char>
    decreases n,
{
    if n <= 0 {
        Seq::empty()
    } else {
        repeat_spec(s, n - 1) + s
    }
}

/// `s`, repeated `n` times.
pub fn str_repeat(s: String, n: usize) -> (r: String)
    ensures
        r@ == repeat_spec(s@, n as int),
{
    let mut out = String::new();
    let mut i: usize = 0;
    proof {
        assert(out@ =~= repeat_spec(s@, 0));
    }
    while i < n
        invariant
            i <= n,
            out@ == repeat_spec(s@, i as int),
        decreases n - i,
    {
        out.append(s.as_str());
        i = i + 1;
    }
    out
}

/// The top border of a box, carrying a title after its left corner.
pub open spec fn label_spec(s: Seq<char>) -> Seq<char> {
    "\u{250c}"@ + "\u{2500}"@ + s + repeat_spec("\u{2500}"@, 52 - s.len()) + "\u{2510}"@
}

/// The top border of a box, carrying a title after its left corner. The
/// title must leave room for the two corners and the one leading dash.
pub fn make_label(s: &str) -> (r: String)
    requires
        s@.len() <= 52,
    ensures
        r@ == label_spec(s@),
{
    let prefix = str_repeat("\u{2500}".to_owned(), 1);
    let rest_len = 52 - s.unicode_len();
    let rest_of_line = str_repeat("\u{2500}".to_owned(), rest_len);
    let mut out = "\u{250c}".to_owned();
    out.append(prefix.as_str());
    out.append(s);
    out.append(rest_of_line.as_str());
    out.append("\u{2510}");
    proof {
        assert(repeat_spec("\u{2500}"@, 0) =~= Seq::<char>::empty());
        assert(repeat_spec("\u{2500}"@, 1) =~= "\u{2500}"@);
        assert(out@ =~= label_spec(s@));
    }
    out
}

/// The bottom border of a box.
pub open spec fn bottom_spec() -> Seq<char> {
    "\u{2514}"@ + repeat_spec("\u{2500}"@, 53) + "\u{2518}"@
}

/// The bottom border of a box.
pub fn make_bottom() -> (r: String)
    ensures
        r@ == bottom_spec(),
{
    let line = str_repeat("\u{2500}".to_owned(), 53);
    let mut out = "\u{2514}".to_owned();
    out.append(line.as_str());
    out.append("\u{2518}");
    proof {
        assert(out@ =~= bottom_spec());
    }
    out
}

/// Where the input cursor is drawn after `len` typed characters: just past
/// them, capped at the box's right edge.
pub open spec fn cursor_x(len: int) -> int {
    if len + 2 <= 52 {
        len + 2
    } else {
        52
    }
}

/// The three spans of one bordered text row.
pub open spec fn boxed_row(y: int, text: Seq<char>) -> Seq<SpanView> {
    seq![
        span_at(0, y, "\u{2502}"@, false),
        span_at(2, y, text, false),
        span_at(54, y, "\u{2502}"@, false),
    ]
}

/// The three spans of the row listing domain `i`: the side borders and the
/// shortened entry text, highlighted when `i` is selected.
pub open spec fn domain_row(s: StateView, i: int) -> Seq<SpanView> {
    seq![
        span_at(0, i + 1, "\u{2502}"@, false),
        span_at(2, i + 1, truncate_spec(render_domain_spec(s.domains[i]), 33), i == s.selected),
        span_at(54, i + 1, "\u{2502}"@, false),
    ]
}

/// The rows listing the first `n` domains, in order.
pub open spec fn domain_rows(s: StateView, n: int) -> Seq<SpanView>
    decreases n,
{
    if n <= 0 {
        Seq::empty()
    } else {
        domain_rows(s, n - 1) + domain_row(s, n - 1)
    }
}

/// The Normal-mode plan: a hint when the list is empty, else the boxed
/// list with the selected entry highlighted.
pub open spec fn normal_plan(s: StateView) -> Seq<SpanView> {
    if s.domains.len() == 0 {
        seq![span_at(0, 0, "No domains, hit i to enter insert mode"@, false)]
    } else {
        seq![span_at(0, 0, label_spec("Domains"@), false)] + domain_rows(
            s,
            s.domains.len() as int,
        ) + seq![span_at(0, s.domains.len() as int + 1, bottom_spec(), false)]
    }
}

/// The Insert-mode plan: the draft's tail, a cursor, and a hint.
pub open spec fn insert_plan(s: StateView) -> Seq<SpanView> {
    seq![
        span_at(0, 0, label_spec("Add domain"@), false),
        span_at(0, 1, "\u{2502}"@, false),
        span_at(2, 1, last_n_spec(s.adding, 50), false),
        span_at(cursor_x(s.adding.len() as int), 1, "_"@, false),
        span_at(54, 1, "\u{2502}"@, false),
    ] + boxed_row(2, "Press enter to finish."@) + seq![span_at(0, 3, bottom_spec(), false)]
}

/// The Password-mode plan: the challenge to retype, the typed tail, and a
/// cursor.
pub open spec fn password_plan(s: StateView) -> Seq<SpanView> {
    seq![span_at(0, 0, label_spec("Type the passphrase below to save"@), false)] + boxed_row(
        1,
        s.correct_pass,
    ) + seq![
        span_at(0, 2, "\u{2502}"@, false),
        span_at(2, 2, last_n_spec(s.pass_input, 50), false),
        span_at(cursor_x(s.pass_input.len() as int), 2, "_"@, false),
        span_at(54, 2, "\u{2502}"@, false),
        span_at(0, 3, bottom_spec(), false),
    ]
}

/// The Help-mode plan: the key bindings, one bordered row each.
pub open spec fn help_plan(s: StateView) -> Seq<SpanView> {
    seq![span_at(0, 0, label_spec("Help"@), false)] + boxed_row(1, "j - down"@) + boxed_row(
        2,
        "k - up"@,
    ) + boxed_row(3, "J - GOTO bottom"@) + boxed_row(4, "K - GOTO top"@) + boxed_row(5, ""@)
        + boxed_row(6, "i - Add a domain to block."@) + boxed_row(
        7,
        "d - Remove highlighted domain."@,
    ) + boxed_row(8, "<space> - Toggle blocked/unblocked"@) + boxed_row(
        9,
        "q - quit / back one screen"@,
    ) + seq![span_at(0, 10, bottom_spec(), false)]
}

/// The whole plan for the state's current mode.
pub open spec fn render_plan_spec(s: StateView) -> Seq<SpanView> {
    match s.mode {
        Mode::Normal => normal_plan(s),
        Mode::Insert => insert_plan(s),
        Mode::Password => password_plan(s),
        Mode::Help => help_plan(s),
    }
}

/// The render plan of `state`, in paint order.
pub fn render_plan(state: &State) -> (r: Vec<Span>)
    requires
        state_inv(state@),
        state@.domains.len() + 1 < usize::MAX,
    ensures
        spans_view(r@) == render_plan_spec(state@),
{
    proof {
        reveal_strlit("Domains");
        reveal_strlit("Add domain");
        reveal_strlit("Type the passphrase below to save");
        reveal_strlit("Help");
    }
    let mut out: Vec<Span> = Vec::new();
    match state.mode {
        Mode::Normal => {
            if state.domains.len() == 0 {
                out.push(
                    Span {
                        x: 0,
                        y: 0,
                        text: "No domains, hit i to enter insert mode".to_owned(),
                        inverted: false,
                    },
                );
                proof {
                    assert(spans_view(out@) =~= normal_plan(state@));
                }
            } else {
                out.push(Span { x: 0, y: 0, text: make_label("Domains"), inverted: false });
                let ghost head = seq![
                    span_at(0, 0, label_spec("Domains"@), false),
                ];
                proof {
                    assert(spans_view(out@) =~= head + domain_rows(state@, 0));
                }
                let n = state.domains.len();
                let mut i: usize = 0;
                while i < n
                    invariant
                        state_inv(state@),
                        i <= n,
                        n == state@.domains.len(),
                        n + 1 < usize::MAX,
                        head == seq![span_at(0, 0, label_spec("Domains"@), false)],
                        spans_view(out@) == head + domain_rows(state@, i as int),
                    decreases n - i,
                {
                    let ghost prev = spans_view(out@);
                    let entry = render_domain(&state.domains[i]);
                    let text = truncate(entry.as_str(), 33);
                    proof {
                        assert(state@.domains[i as int] == state.domains@[i as int]@);
                        assert(text@ == truncate_spec(
                            render_domain_spec(state@.domains[i as int]),
                            33,
                        ));
                    }
                    out.push(Span { x: 0, y: i + 1, text: "\u{2502}".to_owned(), inverted: false });
                    out.push(Span { x: 2, y: i + 1, text, inverted: i == state.selected });
                    out.push(
                        Span {
                            x: BOX_WIDTH - 1,
                            y: i + 1,
                            text: "\u{2502}".to_owned(),
                            inverted: false,
                        },
                    );
                    proof {
                        assert(spans_view(out@) =~= prev + domain_row(state@, i as int));
                        assert(domain_rows(state@, i + 1) == domain_rows(state@, i as int)
                            + domain_row(state@, i as int));
                        assert(spans_view(out@) =~= head + domain_rows(state@, i + 1));
                    }
                    i = i + 1;
                }
                out.push(Span { x: 0, y: n + 1, text: make_bottom(), inverted: false });
                proof {
                    assert(spans_view(out@) =~= normal_plan(state@));
                }
            }
        },
        Mode::Insert => {
            out.push(Span { x: 0, y: 0, text: make_label("Add domain"), inverted: false });
            out.push(Span { x: 0, y: 1, text: "\u{2502}".to_owned(), inverted: false });
            out.push(
                Span { x: 2, y: 1, text: last_n_chars(state.adding.as_str(), BOX_WIDTH - 5), inverted: false },
            );
            let la = state.adding.as_str().unicode_len();
            let cx: usize = if la <= BOX_WIDTH - 5 {
                la + 2
            } else {
                BOX_WIDTH - 3
            };
            out.push(Span { x: cx, y: 1, text: "_".to_owned(), inverted: false });
            out.push(Span { x: BOX_WIDTH - 1, y: 1, text: "\u{2502}".to_owned(), inverted: false });
            out.push(Span { x: 0, y: 2, text: "\u{2502}".to_owned(), inverted: false });
            out.push(Span { x: 2, y: 2, text: "Press enter to finish.".to_owned(), inverted: false });
            out.push(Span { x: BOX_WIDTH - 1, y: 2, text: "\u{2502}".to_owned(), inverted: false });
            out.push(Span { x: 0, y: 3, text: make_bottom(), inverted: false });
            proof {
                assert(spans_view(out@) =~= insert_plan(state@));
            }
        },
        Mode::Password => {
            out.push(
                Span {
                    x: 0,
                    y: 0,
                    text: make_label("Type the passphrase below to save"),
                    inverted: false,
                },
            );
            out.push(Span { x: 0, y: 1, text: "\u{2502}".to_owned(), inverted: false });
            out.push(Span { x: 2, y: 1, text: state.correct_pass.clone(), inverted: false });
            out.push(Span { x: BOX_WIDTH - 1, y: 1, text: "\u{2502}".to_owned(), inverted: false });
            out.push(Span { x: 0, y: 2, text: "\u{2502}".to_owned(), inverted: false });
            out.push(
                Span {
                    x: 2,
                    y: 2,
                    text: last_n_chars(state.pass_input.as_str(), BOX_WIDTH - 5),
                    inverted: false,
                },
            );
            let lp = state.pass_input.as_str().unicode_len();
            let cx: usize = if lp <= BOX_WIDTH - 5 {
                lp + 2
            } else {
                BOX_WIDTH - 3
            };
            out.push(Span { x: cx, y: 2, text: "_".to_owned(), inverted: false });
            out.push(Span { x: BOX_WIDTH - 1, y: 2, text: "\u{2502}".to_owned(), inverted: false });
            out.push(Span { x: 0, y: 3, text: make_bottom(), inverted: false });
            proof {
                assert(spans_view(out@) =~= password_plan(state@));
            }
        },
        Mode::Help => {
            out.push(Span { x: 0, y: 0, text: make_label("Help"), inverted: false });
            let ghost h0 = seq![span_at(0, 0, label_spec("Help"@), false)];
            proof {
                assert(spans_view(out@) =~= h0);
            }
            push_row(&mut out, 1, "j - down");
            proof {
                assert(spans_view(out@) =~= h0 + boxed_row(1, "j - down"@));
            }
            push_row(&mut out, 2, "k - up");
            push_row(&mut out, 3, "J - GOTO bottom");
            push_row(&mut out, 4, "K - GOTO top");
            push_row(&mut out, 5, "");
            push_row(&mut out, 6, "i - Add a domain to block.");
            push_row(&mut out, 7, "d - Remove highlighted domain.");
            push_row(&mut out, 8, "<space> - Toggle blocked/unblocked");
            push_row(&mut out, 9, "q - quit / back one screen");
            out.push(Span { x: 0, y: 10, text: make_bottom(), inverted: false });
            proof {
                assert(spans_view(out@) =~= help_plan(state@));
            }
        },
    }
    out
}

/// Pushes one bordered help row.
fn push_row(out: &mut Vec<Span>, y: usize, text: &str)
    ensures
        spans_view(final(out)@) == spans_view(old(out)@) + boxed_row(y as int, text@),
{
    out.push(Span { x: 0, y, text: "\u{2502}".to_owned(), inverted: false });
    out.push(Span { x: 2, y, text: text.to_owned(), inverted: false });
    out.push(Span { x: BOX_WIDTH - 1, y, text: "\u{2502}".to_owned(), inverted: false });
    proof {
        assert(spans_view(out@) =~= spans_view(old(out)@) + boxed_row(y as int, text@));
    }
}

} // verus!
