//! The line-oriented document mini-language.
//!
//! Each non-blank line is classified by its leading keyword after trimming:
//! `Container` configures the root container (the substrings `vertical`,
//! `horizontal` and `center` set direction and alignment), `Button "<label>"`
//! and `Text "<content>"` append children — the label is what follows the
//! first double quote, up to the next quote or the end of the line. A line
//! matching no keyword is ignored. There is no nesting syntax: every parsed
//! widget becomes a direct child of one synthesized root container of the
//! fixed default size, and parsing never fails.
//!
//! The grammar and its effect are stated by the spec functions below
//! ([`parse_doc`] chief among them), and `parse_ui` is proved to compute
//! exactly that.

use vstd::prelude::*;
use vstd::string::StrSliceExecFns;
use crate::geometry::{Alignment, Direction, PaddingModel, RectModel};
use crate::layout::{layout_container, lemma_layout_children_measures, pushed};
use crate::renderer::Rgba;
use crate::limits::DEPTH_MAX;
use crate::widgets::{
    c_wf, children_depth, depth, lemma_max_le_sum, lemma_pref_nonneg, lemma_seq_pref_nonneg,
    pref_h, pref_w, sum_pref_h, sum_pref_w, Button, ButtonModel, Container, ContainerModel, Text,
    TextModel, Widget, WidgetModel, BUTTON_PREF_HEIGHT, BUTTON_PREF_WIDTH, GLYPH_HEIGHT,
    GLYPH_WIDTH,
};

verus! {

/// Longest document the parser accepts; keeps every preferred-size sum the
/// parse can build far within the layout limits.
pub const DOC_MAX: usize = 0x80_0000;

/// A parse error. The present grammar ignores unrecognized lines rather than
/// rejecting them, so `parse_ui` never actually produces one; the type is
/// part of the interface for callers that surface diagnostics.
#[derive(Debug)]
pub enum ParseError {
    InvalidFormat(String),
    IoError(String),
}

/// The whitespace trimmed from line ends.
pub open spec fn is_space(c: char) -> bool {
    c == ' ' || c == '\t' || c == '\r'
}

/// A line with its leading whitespace removed.
pub open spec fn trim_front(s: Seq<char>) -> Seq<char>
    decreases s.len(),
{
    if s.len() > 0 && is_space(s[0]) {
        trim_front(s.drop_first())
    } else {
        s
    }
}

/// A line with its trailing whitespace removed.
pub open spec fn trim_back(s: Seq<char>) -> Seq<char>
    decreases s.len(),
{
    if s.len() > 0 && is_space(s.last()) {
        trim_back(s.drop_last())
    } else {
        s
    }
}

/// A line with whitespace removed from both ends.
pub open spec fn trim(s: Seq<char>) -> Seq<char> {
    trim_back(trim_front(s))
}

/// Index of the first occurrence of `c` in `s`, or `-1`.
pub open spec fn find_idx(s: Seq<char>, c: char) -> int
    decreases s.len(),
{
    if s.len() == 0 {
        -1
    } else if s[0] == c {
        0
    } else {
        let r = find_idx(s.drop_first(), c);
        if r < 0 {
            -1
        } else {
            1 + r
        }
    }
}

/// Whether `s` begins with `pat`.
pub open spec fn starts_with_seq(s: Seq<char>, pat: Seq<char>) -> bool {
    s.len() >= pat.len() && s.subrange(0, pat.len() as int) == pat
}

/// Whether `pat` occurs somewhere in `s`.
pub open spec fn contains_seq(s: Seq<char>, pat: Seq<char>) -> bool {
    exists|k: int|
        0 <= k <= s.len() - pat.len() && #[trigger] s.subrange(k, k + pat.len() as int) == pat
}

/// What follows the first double quote of a line, up to the next double
/// quote or the end of the line; nothing when the line has no quote.
pub open spec fn quoted(s: Seq<char>) -> Option<Seq<char>> {
    let q1 = find_idx(s, '"');
    if q1 < 0 {
        None
    } else {
        let rest = s.subrange(q1 + 1, s.len() as int);
        let q2 = find_idx(rest, '"');
        if q2 < 0 {
            Some(rest)
        } else {
            Some(rest.subrange(0, q2))
        }
    }
}

/// The document text split at newlines.
pub open spec fn split_lines(s: Seq<char>) -> Seq<Seq<char>>
    decreases s.len(),
{
    let e = find_idx(s, '\n');
    if e < 0 || s.len() <= e {
        seq![s]
    } else {
        seq![s.subrange(0, e)] + split_lines(s.subrange(e + 1, s.len() as int))
    }
}

/// The keyword opening a container line.
pub open spec fn kw_container() -> Seq<char> {
    seq!['C', 'o', 'n', 't', 'a', 'i', 'n', 'e', 'r']
}

/// The keyword opening a button line.
pub open spec fn kw_button() -> Seq<char> {
    seq!['B', 'u', 't', 't', 'o', 'n']
}

/// The keyword opening a text line.
pub open spec fn kw_text() -> Seq<char> {
    seq!['T', 'e', 'x', 't']
}

/// The attribute word selecting a vertical main axis.
pub open spec fn kw_vertical() -> Seq<char> {
    seq!['v', 'e', 'r', 't', 'i', 'c', 'a', 'l']
}

/// The attribute word selecting a horizontal main axis.
pub open spec fn kw_horizontal() -> Seq<char> {
    seq!['h', 'o', 'r', 'i', 'z', 'o', 'n', 't', 'a', 'l']
}

/// The attribute word selecting centered alignment.
pub open spec fn kw_center() -> Seq<char> {
    seq!['c', 'e', 'n', 't', 'e', 'r']
}

/// The button a `Button "<label>"` line creates.
pub open spec fn parsed_button(label: Seq<char>) -> WidgetModel {
    WidgetModel::Button(
        ButtonModel {
            rect: RectModel {
                x: 0,
                y: 0,
                width: BUTTON_PREF_WIDTH as int,
                height: BUTTON_PREF_HEIGHT as int,
            },
            label,
            is_hovered: false,
            is_pressed: false,
            on_click: None,
        },
    )
}

/// The text widget a `Text "<content>"` line creates.
pub open spec fn parsed_text(content: Seq<char>) -> WidgetModel {
    WidgetModel::Text(
        TextModel {
            rect: RectModel {
                x: 0,
                y: 0,
                width: GLYPH_WIDTH * content.len(),
                height: GLYPH_HEIGHT as int,
            },
            content,
            color: Rgba { r: 255, g: 255, b: 255, a: 255 },
        },
    )
}

/// The effect of one document line on the container built so far: container
/// lines reconfigure it, widget lines append a child and re-run the layout,
/// anything else leaves it alone.
pub open spec fn parse_step(c: ContainerModel, line: Seq<char>) -> ContainerModel {
    let t = trim(line);
    if starts_with_seq(t, kw_container()) {
        let c1 = if contains_seq(t, kw_vertical()) {
            ContainerModel { direction: Direction::Vertical, ..c }
        } else {
            c
        };
        let c2 = if contains_seq(t, kw_horizontal()) {
            ContainerModel { direction: Direction::Horizontal, ..c1 }
        } else {
            c1
        };
        if contains_seq(t, kw_center()) {
            ContainerModel { alignment: Alignment::Center, ..c2 }
        } else {
            c2
        }
    } else if starts_with_seq(t, kw_button()) {
        match quoted(t) {
            Some(label) => layout_container(pushed(c, parsed_button(label)), c.rect),
            None => c,
        }
    } else if starts_with_seq(t, kw_text()) {
        match quoted(t) {
            Some(content) => layout_container(pushed(c, parsed_text(content)), c.rect),
            None => c,
        }
    } else {
        c
    }
}

/// The container after processing a sequence of lines in order.
pub open spec fn parse_lines(c: ContainerModel, ls: Seq<Seq<char>>) -> ContainerModel
    decreases ls.len(),
{
    if ls.len() == 0 {
        c
    } else {
        parse_lines(parse_step(c, ls[0]), ls.drop_first())
    }
}

/// The root container every parse starts from: the fixed default size with
/// the default configuration.
pub open spec fn initial_container() -> ContainerModel {
    ContainerModel {
        rect: RectModel { x: 0, y: 0, width: 800, height: 600 },
        padding: PaddingModel { left: 10, right: 10, top: 10, bottom: 10 },
        children: Seq::empty(),
        direction: Direction::Vertical,
        alignment: Alignment::Start,
        spacing: 5,
    }
}

/// What a whole document parses to.
pub open spec fn parse_doc(text: Seq<char>) -> ContainerModel {
    parse_lines(initial_container(), split_lines(text))
}

/// Characterization of `find_idx`: it names the first occurrence, or reports
/// that there is none.
pub proof fn lemma_find_idx(s: Seq<char>, c: char)
    ensures
        find_idx(s, c) < 0 ==> forall|j: int| 0 <= j < s.len() ==> s[j] != c,
        find_idx(s, c) >= 0 ==> 0 <= find_idx(s, c) < s.len() && s[find_idx(s, c)] == c
            && forall|j: int| 0 <= j < find_idx(s, c) ==> s[j] != c,
    decreases s.len(),
{
    if s.len() > 0 && s[0] != c {
        let d = s.drop_first();
        lemma_find_idx(d, c);
        if find_idx(s, c) < 0 {
            assert forall|j: int| 0 <= j < s.len() implies s[j] != c by {
                if j > 0 {
                    assert(d[j - 1] == s[j]);
                }
            }
        } else {
            assert(d[find_idx(d, c)] == s[find_idx(s, c)]);
            assert forall|j: int| 0 <= j < find_idx(s, c) implies s[j] != c by {
                if j > 0 {
                    assert(d[j - 1] == s[j]);
                }
            }
        }
    }
}

/// Characterization of `trim_front`: dropping exactly the leading run of
/// whitespace.
pub proof fn lemma_trim_front(s: Seq<char>, k: int)
    requires
        0 <= k <= s.len(),
        forall|j: int| 0 <= j < k ==> is_space(s[j]),
        k == s.len() || !is_space(s[k]),
    ensures
        trim_front(s) == s.subrange(k, s.len() as int),
    decreases k,
{
    if k == 0 {
        assert(s.subrange(0, s.len() as int) =~= s);
    } else {
        let d = s.drop_first();
        assert(forall|j: int| 0 <= j < d.len() ==> #[trigger] d[j] == s[j + 1]);
        lemma_trim_front(d, k - 1);
        assert(d.subrange(k - 1, d.len() as int) =~= s.subrange(k, s.len() as int));
    }
}

/// Characterization of `trim_back`: dropping exactly the trailing run of
/// whitespace.
pub proof fn lemma_trim_back(s: Seq<char>, k: int)
    requires
        0 <= k <= s.len(),
        forall|j: int| k <= j < s.len() ==> is_space(s[j]),
        k == 0 || !is_space(s[k - 1]),
    ensures
        trim_back(s) == s.subrange(0, k),
    decreases s.len() - k,
{
    if k == s.len() {
        assert(s.subrange(0, k) =~= s);
    } else {
        let d = s.drop_last();
        lemma_trim_back(d, k);
        assert(d.subrange(0, k) =~= s.subrange(0, k));
    }
}

/// A first occurrence at `r` (or none at `r == -1`) pins down `find_idx`.
pub proof fn lemma_find_idx_agrees(t: Seq<char>, c: char, r: int)
    requires
        (r == -1 && forall|j: int| 0 <= j < t.len() ==> t[j] != c) || (0 <= r < t.len() && t[r]
            == c && forall|j: int| 0 <= j < r ==> t[j] != c),
    ensures
        find_idx(t, c) == r,
{
    lemma_find_idx(t, c);
}

/// Find the first occurrence of `c` in the range `[from, to)`.
fn find_in(s: &str, from: usize, to: usize, c: char) -> (r: Option<usize>)
    requires
        from <= to <= s@.len(),
    ensures
        match r {
            Some(i) => from <= i < to && s@[i as int] == c && (forall|j: int|
                from <= j < i ==> s@[j] != c),
            None => forall|j: int| from <= j < to ==> s@[j] != c,
        },
{
    let mut i = from;
    while i < to
        invariant
            from <= i <= to <= s@.len(),
            forall|j: int| from <= j < i ==> s@[j] != c,
        decreases to - i,
    {
        if s.get_char(i) == c {
            return Some(i);
        }
        i = i + 1;
    }
    None
}

/// The byte-free whitespace test matching [`is_space`].
fn is_space_char(c: char) -> (r: bool)
    ensures
        r == is_space(c),
{
    c == ' ' || c == '\t' || c == '\r'
}

/// Bounds of the whitespace-trimmed middle of the line `[ls, le)`.
fn trim_range(s: &str, ls: usize, le: usize) -> (r: (usize, usize))
    requires
        ls <= le <= s@.len(),
    ensures
        ls <= r.0 <= r.1 <= le,
        trim(s@.subrange(ls as int, le as int)) == s@.subrange(r.0 as int, r.1 as int),
{
    let ghost line = s@.subrange(ls as int, le as int);
    let mut a = ls;
    while a < le && is_space_char(s.get_char(a))
        invariant
            ls <= a <= le <= s@.len(),
            line == s@.subrange(ls as int, le as int),
            forall|j: int| ls <= j < a ==> is_space(s@[j]),
        decreases le - a,
    {
        a = a + 1;
    }
    proof {
        assert forall|j: int| 0 <= j < a - ls implies is_space(line[j]) by {
            assert(line[j] == s@[ls + j]);
        }
        if a < le {
            assert(line[a - ls] == s@[a as int]);
        }
        lemma_trim_front(line, a - ls);
        assert(line.subrange(a - ls, line.len() as int) =~= s@.subrange(a as int, le as int));
    }
    if a == le {
        proof {
            assert(trim_back(s@.subrange(a as int, le as int)) =~= s@.subrange(
                a as int,
                le as int,
            ));
        }
        return (a, a);
    }
    let ghost fronted = s@.subrange(a as int, le as int);
    let mut b = le;
    while b > a && is_space_char(s.get_char(b - 1))
        invariant
            ls <= a <= b <= le <= s@.len(),
            fronted == s@.subrange(a as int, le as int),
            forall|j: int| b <= j < le ==> is_space(s@[j]),
        decreases b,
    {
        b = b - 1;
    }
    proof {
        assert forall|j: int| b - a <= j < fronted.len() implies is_space(fronted[j]) by {
            assert(fronted[j] == s@[a + j]);
        }
        if b > a {
            assert(fronted[b - a - 1] == s@[b - 1]);
        }
        lemma_trim_back(fronted, b - a);
        assert(fronted.subrange(0, b - a) =~= s@.subrange(a as int, b as int));
    }
    (a, b)
}

/// Whether the range `[a, b)` of `s` begins with `pat`.
fn starts_with_at(s: &str, a: usize, b: usize, pat: &Vec<char>) -> (r: bool)
    requires
        a <= b <= s@.len(),
    ensures
        r == starts_with_seq(s@.subrange(a as int, b as int), pat@),
{
    let ghost t = s@.subrange(a as int, b as int);
    let m = pat.len();
    if b - a < m {
        return false;
    }
    let mut j: usize = 0;
    while j < m
        invariant
            a <= b <= s@.len(),
            t == s@.subrange(a as int, b as int),
            m == pat@.len(),
            m <= b - a,
            j <= m,
            forall|k: int| 0 <= k < j ==> s@[a + k] == pat@[k],
        decreases m - j,
    {
        if s.get_char(a + j) != pat[j] {
            proof {
                assert(t[j as int] == s@[a + j]);
                assert(t.subrange(0, m as int) != pat@) by {
                    assert(t.subrange(0, m as int)[j as int] == s@[a + j]);
                }
            }
            return false;
        }
        j = j + 1;
    }
    proof {
        assert forall|k: int| 0 <= k < m implies t.subrange(0, m as int)[k] == pat@[k] by {
            assert(t[k] == s@[a + k]);
        }
        assert(t.subrange(0, m as int) =~= pat@);
    }
    true
}

/// Whether `pat` occurs inside the range `[a, b)` of `s`.
fn contains_at(s: &str, a: usize, b: usize, pat: &Vec<char>) -> (r: bool)
    requires
        a <= b <= s@.len(),
    ensures
        r == contains_seq(s@.subrange(a as int, b as int), pat@),
{
    let ghost t = s@.subrange(a as int, b as int);
    let m = pat.len();
    if b - a < m {
        proof {
            assert(!contains_seq(t, pat@));
        }
        return false;
    }
    let mut k: usize = 0;
    while k <= (b - a) - m
        invariant
            a <= b <= s@.len(),
            t == s@.subrange(a as int, b as int),
            m == pat@.len(),
            m <= b - a,
            k <= (b - a) - m + 1,
            forall|q: int| 0 <= q < k ==> #[trigger] t.subrange(q, q + m as int) != pat@,
        decreases (b - a) - m - k + 1,
    {
        let mut j: usize = 0;
        let mut all = true;
        while j < m
            invariant
                a <= b <= s@.len(),
                t == s@.subrange(a as int, b as int),
                m == pat@.len(),
                k + m <= b - a,
                j <= m,
                all == (forall|q: int| 0 <= q < j ==> t[k + q] == pat@[q]),
            decreases m - j,
        {
            let ghost all0 = all;
            let ghost j0 = j as int;
            if s.get_char(a + k + j) != pat[j] {
                all = false;
                proof {
                    assert(t[k + j0] == s@[a + k + j0]);
                }
            }
            proof {
                if all {
                    assert(t[k + j0] == s@[a + k + j0]);
                    assert forall|q: int| 0 <= q < j0 + 1 implies t[k + q] == pat@[q] by {}
                }
            }
            j = j + 1;
        }
        if all {
            proof {
                assert forall|q: int| 0 <= q < m implies t.subrange(
                    k as int,
                    k + m as int,
                )[q] == pat@[q] by {
                    assert(t.subrange(k as int, k + m as int)[q] == t[k + q]);
                }
                assert(t.subrange(k as int, k + m as int) =~= pat@);
                assert(contains_seq(t, pat@));
            }
            return true;
        }
        proof {
            let ghost bad = choose|q: int| 0 <= q < m && t[k + q] != pat@[q];
            assert(t.subrange(k as int, k + m as int)[bad] == t[k + bad]);
            assert(t.subrange(k as int, k + m as int) != pat@);
        }
        k = k + 1;
    }
    proof {
        assert forall|q: int| 0 <= q <= t.len() - pat@.len() implies #[trigger] t.subrange(
            q,
            q + pat@.len() as int,
        ) != pat@ by {}
        assert(!contains_seq(t, pat@));
    }
    false
}

/// Parse a document into a widget tree. The grammar ignores what it does
/// not recognize, so parsing always succeeds and the result is exactly the
/// container [`parse_doc`] describes; the `Result` shape is the interface
/// for callers that surface diagnostics.
#[verifier::rlimit(100)]
pub fn parse_ui(content: &str) -> (r: Result<Container, ParseError>)
    requires
        content@.len() <= DOC_MAX,
    ensures
        r matches Ok(c) && c@ == parse_doc(content@) && c_wf(c@),
{
    let n = content.unicode_len();
    let kw_cont: Vec<char> = vec!['C', 'o', 'n', 't', 'a', 'i', 'n', 'e', 'r'];
    let kw_btn: Vec<char> = vec!['B', 'u', 't', 't', 'o', 'n'];
    let kw_txt: Vec<char> = vec!['T', 'e', 'x', 't'];
    let kw_vert: Vec<char> = vec!['v', 'e', 'r', 't', 'i', 'c', 'a', 'l'];
    let kw_horiz: Vec<char> = vec!['h', 'o', 'r', 'i', 'z', 'o', 'n', 't', 'a', 'l'];
    let kw_cent: Vec<char> = vec!['c', 'e', 'n', 't', 'e', 'r'];
    proof {
        assert(kw_cont@ =~= kw_container());
        assert(kw_btn@ =~= kw_button());
        assert(kw_txt@ =~= kw_text());
        assert(kw_vert@ =~= kw_vertical());
        assert(kw_horiz@ =~= kw_horizontal());
        assert(kw_cent@ =~= kw_center());
    }
    let mut container = Container::new(0, 0, 800, 600);
    proof {
        assert(container@ == initial_container());
    }
    let mut pos: usize = 0;
    let mut going = true;
    let ghost mut done: Seq<Seq<char>> = Seq::empty();
    proof {
        assert(content@.subrange(0, n as int) =~= content@);
        assert(done + split_lines(content@) =~= split_lines(content@));
    }
    while going
        invariant
            n == content@.len(),
            n <= DOC_MAX,
            kw_cont@ == kw_container(),
            kw_btn@ == kw_button(),
            kw_txt@ == kw_text(),
            kw_vert@ == kw_vertical(),
            kw_horiz@ == kw_horizontal(),
            kw_cent@ == kw_center(),
            pos <= n,
            container@ == parse_lines(initial_container(), done),
            going ==> split_lines(content@) == done + split_lines(
                content@.subrange(pos as int, n as int),
            ),
            going ==> done.len() <= pos,
            !going ==> done == split_lines(content@),
            !going ==> done.len() <= n + 1,
            container@.children.len() <= done.len(),
            sum_pref_h(container@.children) <= 50 * done.len(),
            sum_pref_w(container@.children) <= 200 * done.len() + 8 * (if going {
                pos as int
            } else {
                n as int
            }),
            children_depth(container@.children) == 0,
            forall|i: int|
                0 <= i < container@.children.len() ==> crate::widgets::wf(
                    #[trigger] container@.children[i],
                ),
            container@.rect == (RectModel { x: 0, y: 0, width: 800, height: 600 }),
            container@.padding == (PaddingModel { left: 10, right: 10, top: 10, bottom: 10 }),
            container@.spacing == 5,
        decreases n - pos, (if going { 1int } else { 0int }),
    {
        let e_opt = find_in(content, pos, n, '\n');
        let le = match e_opt {
            Some(e) => e,
            None => n,
        };
        let ghost line = content@.subrange(pos as int, le as int);
        let ghost rem = content@.subrange(pos as int, n as int);
        proof {
            match e_opt {
                Some(e) => {
                    assert forall|j: int| 0 <= j < e - pos implies rem[j] != '\n' by {
                        assert(rem[j] == content@[pos + j]);
                    }
                    assert(rem[e - pos] == content@[e as int]);
                    lemma_find_idx_agrees(rem, '\n', e - pos);
                    assert(rem.subrange(0, e - pos) =~= line);
                    assert(rem.subrange(e - pos + 1, rem.len() as int) =~= content@.subrange(
                        e + 1,
                        n as int,
                    ));
                },
                None => {
                    assert forall|j: int| 0 <= j < rem.len() implies rem[j] != '\n' by {
                        assert(rem[j] == content@[pos + j]);
                    }
                    lemma_find_idx_agrees(rem, '\n', -1);
                    assert(rem =~= line);
                },
            }
        }
        let tr = trim_range(content, pos, le);
        let a = tr.0;
        let b = tr.1;
        let ghost t = trim(line);
        proof {
            assert(t == content@.subrange(a as int, b as int));
        }
        let ghost c0 = container@;

        if starts_with_at(content, a, b, &kw_cont) {
            if contains_at(content, a, b, &kw_vert) {
                container = container.with_direction(Direction::Vertical);
            }
            if contains_at(content, a, b, &kw_horiz) {
                container = container.with_direction(Direction::Horizontal);
            }
            if contains_at(content, a, b, &kw_cent) {
                container = container.with_alignment(Alignment::Center);
            }
            proof {
                assert(container@ == parse_step(c0, line));
            }
        } else {
            let is_b = starts_with_at(content, a, b, &kw_btn);
            let is_t = if is_b {
                false
            } else {
                starts_with_at(content, a, b, &kw_txt)
            };
            if is_b || is_t {
                match find_in(content, a, b, '"') {
                    None => {
                        proof {
                            assert forall|j: int| 0 <= j < t.len() implies t[j] != '"' by {
                                assert(t[j] == content@[a + j]);
                            }
                            lemma_find_idx_agrees(t, '"', -1);
                            assert(container@ == parse_step(c0, line));
                        }
                    },
                    Some(q1) => {
                        let q2_opt = find_in(content, q1 + 1, b, '"');
                        let lab_end = match q2_opt {
                            Some(q2) => q2,
                            None => b,
                        };
                        let label = content.substring_char(q1 + 1, lab_end);
                        proof {
                            assert forall|j: int| 0 <= j < q1 - a implies t[j] != '"' by {
                                assert(t[j] == content@[a + j]);
                            }
                            assert(t[q1 - a] == content@[q1 as int]);
                            lemma_find_idx_agrees(t, '"', q1 - a);
                            let rest = t.subrange(q1 - a + 1, t.len() as int);
                            assert(rest =~= content@.subrange(q1 + 1, b as int));
                            match q2_opt {
                                Some(q2) => {
                                    assert forall|j: int| 0 <= j < q2 - q1 - 1 implies rest[j]
                                        != '"' by {
                                        assert(rest[j] == content@[q1 + 1 + j]);
                                    }
                                    assert(rest[q2 - q1 - 1] == content@[q2 as int]);
                                    lemma_find_idx_agrees(rest, '"', q2 - q1 - 1);
                                    assert(rest.subrange(0, q2 - q1 - 1) =~= content@.subrange(
                                        q1 + 1,
                                        q2 as int,
                                    ));
                                },
                                None => {
                                    assert forall|j: int| 0 <= j < rest.len() implies rest[j]
                                        != '"' by {
                                        assert(rest[j] == content@[q1 + 1 + j]);
                                    }
                                    lemma_find_idx_agrees(rest, '"', -1);
                                },
                            }
                            assert(quoted(t) == Some(label@));
                            assert(label@.len() <= le - pos);
                        }
                        let widget = if is_b {
                            Widget::Button(
                                Button::new(0, 0, BUTTON_PREF_WIDTH, BUTTON_PREF_HEIGHT, label),
                            )
                        } else {
                            Widget::Text(Text::new(0, 0, label))
                        };
                        proof {
                            if is_b {
                                assert(widget@ == parsed_button(label@));
                            } else {
                                assert(widget@ == parsed_text(label@));
                            }
                            let p = pushed(c0, widget@);
                            assert(p.children.drop_last() =~= c0.children);
                            assert(p.children.last() == widget@);
                            lemma_pref_nonneg(widget@);
                            assert(pref_h(widget@) <= 50);
                            assert(pref_w(widget@) <= 200 + 8 * label@.len());
                            assert(sum_pref_h(p.children) == sum_pref_h(c0.children) + pref_h(
                                widget@,
                            ));
                            assert(sum_pref_w(p.children) == sum_pref_w(c0.children) + pref_w(
                                widget@,
                            ));
                            lemma_max_le_sum(p.children);
                            lemma_seq_pref_nonneg(p.children);
                            assert(depth(widget@) == 0);
                            assert(children_depth(p.children) == 0);
                            assert forall|i: int| 0 <= i < p.children.len() implies
                                crate::widgets::wf(#[trigger] p.children[i]) by {
                                if i < c0.children.len() {
                                    assert(p.children[i] == c0.children[i]);
                                }
                            }
                            assert(c_wf(p));
                            assert(crate::limits::rect_bounded(c0.rect, DEPTH_MAX as int));
                        }
                        container.add_child(widget);
                        proof {
                            lemma_layout_children_measures(pushed(c0, widget@), c0.rect);
                            assert(container@ == parse_step(c0, line));
                        }
                    },
                }
            } else {
                proof {
                    assert(container@ == parse_step(c0, line));
                }
            }
        }
        proof {
            lemma_parse_lines_snoc(initial_container(), done, line);
            done = done.push(line);
        }
        match e_opt {
            Some(e) => {
                pos = e + 1;
                proof {
                    assert(split_lines(content@) =~= done + split_lines(
                        content@.subrange(pos as int, n as int),
                    ));
                }
            },
            None => {
                going = false;
                proof {
                    assert(done =~= split_lines(content@));
                }
            },
        }
    }
    proof {
        assert(container@ == parse_doc(content@));
        lemma_max_le_sum(container@.children);
        lemma_seq_pref_nonneg(container@.children);
        assert(c_wf(container@));
    }
    Ok(container)
}

/// Folding one more line is one more step.
pub proof fn lemma_parse_lines_snoc(c: ContainerModel, ls: Seq<Seq<char>>, l: Seq<char>)
    ensures
        parse_lines(c, ls.push(l)) == parse_step(parse_lines(c, ls), l),
    decreases ls.len(),
{
    if ls.len() == 0 {
        assert(ls.push(l).drop_first() =~= Seq::<Seq<char>>::empty());
        assert(ls.push(l)[0] == l);
        assert(parse_lines(c, ls.push(l)) == parse_lines(
            parse_step(c, l),
            ls.push(l).drop_first(),
        ));
        assert(parse_lines(parse_step(c, l), ls.push(l).drop_first()) == parse_step(c, l));
        assert(parse_lines(c, ls) == c);
    } else {
        assert(ls.push(l)[0] == ls[0]);
        assert(ls.push(l).drop_first() =~= ls.drop_first().push(l));
        lemma_parse_lines_snoc(parse_step(c, ls[0]), ls.drop_first(), l);
        assert(parse_lines(c, ls.push(l)) == parse_lines(
            parse_step(c, ls[0]),
            ls.drop_first().push(l),
        ));
        assert(parse_lines(c, ls) == parse_lines(parse_step(c, ls[0]), ls.drop_first()));
    }
}

} // verus!
