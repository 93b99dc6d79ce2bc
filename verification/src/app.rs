//! The in-memory model of an interactive session: the loaded request
//! file, the current selection and focus, the filter, scroll offsets, the
//! loading flag, and the append-only execution history.
//!
//! Every mutation is a small, exactly specified transition; the input
//! dispatcher composes them.

use vstd::prelude::*;

use crate::request::{eq_ignore_ascii_case, HttpFile, HttpFileView, Request, RequestView};
use crate::response::{Response, ResponseView};
use crate::strmap::assoc_get;
use crate::variable::{
    collect_placeholders, dedup_names, header_values_placeholders, pairs_for_names, placeholders,
    spec_used_variables,
};

verus! {

/// The single UI region receiving navigation input.
#[derive(Debug, Clone, Copy, PartialEq, Eq, Structural)]
pub enum Focus {
    RequestList,
    ResponseBody,
    RequestDetails,
    VariablesList,
    HistoryList,
    HistoryDetail,
}

/// The sub-tab of the response panel.
#[derive(Debug, Clone, Copy, PartialEq, Eq, Structural)]
pub enum ResponseTab {
    Body,
    Headers,
}

/// The mathematical shape of a history entry.
#[verifier::ext_equal]
pub struct HistoryEntryView {
    pub request: RequestView,
    pub response: ResponseView,
    pub timestamp_ms: u64,
}

/// One completed execution: the request as sent, the response (real or
/// synthesized), and a capture timestamp. Never mutated once appended.
#[derive(Debug)]
pub struct HistoryEntry {
    pub request: Request,
    pub response: Response,
    pub timestamp_ms: u64,
}

impl View for HistoryEntry {
    type V = HistoryEntryView;

    open spec fn view(&self) -> HistoryEntryView {
        HistoryEntryView {
            request: self.request@,
            response: self.response@,
            timestamp_ms: self.timestamp_ms,
        }
    }
}

/// The mathematical shape of the whole session state.
#[verifier::ext_equal]
pub struct AppView {
    pub file: HttpFileView,
    pub selected: usize,
    pub selected_variable: usize,
    pub last_response: Option<ResponseView>,
    pub should_quit: bool,
    pub focus: Focus,
    pub response_tab: ResponseTab,
    pub response_scroll: u16,
    pub response_headers_scroll: u16,
    pub request_details_scroll: u16,
    pub request_details_visible_height: u16,
    pub loading: bool,
    pub filter_active: bool,
    pub filter: Seq<char>,
    pub history: Seq<HistoryEntryView>,
    pub history_view: bool,
    pub selected_history: usize,
    pub history_detail_scroll: u16,
}

/// The session state. Mutated only through its methods and by the
/// orchestrating loop's fold step.
#[derive(Debug)]
pub struct App {
    pub http_file: HttpFile,
    /// Index into the currently visible (filtered) request list.
    pub selected: usize,
    /// Index into the variables the selected request uses.
    pub selected_variable: usize,
    pub last_response: Option<Response>,
    pub should_quit: bool,
    pub focus: Focus,
    pub response_tab: ResponseTab,
    pub response_scroll: u16,
    pub response_headers_scroll: u16,
    pub request_details_scroll: u16,
    pub request_details_visible_height: u16,
    /// True only between an execute command and its result folding back.
    pub loading: bool,
    pub filter_active: bool,
    /// The filter text, as characters.
    pub filter: Vec<char>,
    /// Append-only, in chronological order.
    pub history: Vec<HistoryEntry>,
    pub history_view: bool,
    pub selected_history: usize,
    pub history_detail_scroll: u16,
}

impl View for App {
    type V = AppView;

    open spec fn view(&self) -> AppView {
        AppView {
            file: self.http_file@,
            selected: self.selected,
            selected_variable: self.selected_variable,
            last_response: match self.last_response {
                Some(r) => Some(r@),
                None => None,
            },
            should_quit: self.should_quit,
            focus: self.focus,
            response_tab: self.response_tab,
            response_scroll: self.response_scroll,
            response_headers_scroll: self.response_headers_scroll,
            request_details_scroll: self.request_details_scroll,
            request_details_visible_height: self.request_details_visible_height,
            loading: self.loading,
            filter_active: self.filter_active,
            filter: self.filter@,
            history: self.history@.map_values(|e: HistoryEntry| e@),
            history_view: self.history_view,
            selected_history: self.selected_history,
            history_detail_scroll: self.history_detail_scroll,
        }
    }
}

/// Case-insensitive substring: some slice of `hay` of the needle's length
/// equals `needle` ignoring ASCII case.
pub open spec fn contains_ci(hay: Seq<char>, needle: Seq<char>) -> bool {
    exists|i: int|
        0 <= i && i + needle.len() <= hay.len() && eq_ignore_ascii_case(
            #[trigger] hay.subrange(i, i + needle.len()),
            needle,
        )
}

/// Case-insensitive substring search.
pub fn str_contains_ci(hay: &str, needle: &Vec<char>) -> (r: bool)
    ensures
        r == contains_ci(hay@, needle@),
{
    let n = hay.unicode_len();
    let m = needle.len();
    if m > n {
        return false;
    }
    let mut i: usize = 0;
    while i <= n - m
        invariant
            0 <= i <= n - m + 1,
            m <= n,
            n == hay@.len(),
            m == needle@.len(),
            forall|t: int|
                0 <= t < i ==> !eq_ignore_ascii_case(
                    #[trigger] hay@.subrange(t, t + needle@.len()),
                    needle@,
                ),
        decreases n - m - i + 1,
    {
        let mut j: usize = 0;
        let mut hit = true;
        while j < m
            invariant
                0 <= j <= m,
                0 <= i <= n - m,
                m <= n,
                n == hay@.len(),
                m == needle@.len(),
                hit ==> forall|t: int|
                    0 <= t < j ==> crate::request::upper_int(hay@[i + t]) == crate::request::upper_int(
                        #[trigger] needle@[t],
                    ),
                !hit ==> exists|t: int|
                    0 <= t < j && crate::request::upper_int(hay@[i + t]) != crate::request::upper_int(
                        #[trigger] needle@[t],
                    ),
            decreases m - j,
        {
            let a = hay.get_char(i + j);
            let b = needle[j];
            let ua = crate::request::upper_code(a);
            let ub = crate::request::upper_code(b);
            if ua != ub {
                hit = false;
            }
            j = j + 1;
        }
        proof {
            let sub = hay@.subrange(i as int, i + needle@.len());
            assert(forall|t: int| 0 <= t < needle@.len() ==> #[trigger] sub[t] == hay@[i + t]);
            if hit {
                assert(eq_ignore_ascii_case(sub, needle@));
            } else {
                let t = choose|t: int|
                    0 <= t < m && crate::request::upper_int(hay@[i + t]) != crate::request::upper_int(
                        #[trigger] needle@[t],
                    );
                assert(crate::request::upper_int(sub[t]) != crate::request::upper_int(needle@[t]));
                assert(!eq_ignore_ascii_case(sub, needle@));
            }
        }
        if hit {
            return true;
        }
        i = i + 1;
    }
    proof {
        assert forall|t: int|
            0 <= t && t + needle@.len() <= hay@.len() implies !eq_ignore_ascii_case(
            #[trigger] hay@.subrange(t, t + needle@.len()),
            needle@,
        ) by {
            assert(t < i);
        }
    }
    false
}

/// Whether a request stays visible under the filter text: an empty filter
/// matches everything; otherwise the URL or the display name must contain
/// the text, case-insensitively.
pub open spec fn matches_filter(rv: RequestView, f: Seq<char>) -> bool {
    ||| f.len() == 0
    ||| contains_ci(rv.url, f)
    ||| (rv.name is Some && contains_ci(rv.name->Some_0, f))
}

/// The filter the view currently applies: the filter text when filtering
/// is active, nothing otherwise.
pub open spec fn active_filter(a: AppView) -> Seq<char> {
    if a.filter_active {
        a.filter
    } else {
        Seq::empty()
    }
}

/// The indices of the requests visible under filter `f`, scanning from
/// `i`, in file order.
pub open spec fn filtered_from(reqs: Seq<RequestView>, f: Seq<char>, i: int) -> Seq<int>
    decreases reqs.len() - i,
{
    if i < 0 || i >= reqs.len() {
        Seq::empty()
    } else if matches_filter(reqs[i], f) {
        seq![i] + filtered_from(reqs, f, i + 1)
    } else {
        filtered_from(reqs, f, i + 1)
    }
}

/// The indices of the currently visible requests, in file order.
pub open spec fn visible_of(a: AppView) -> Seq<int> {
    filtered_from(a.file.requests, active_filter(a), 0)
}

/// Tests a request against the active filter.
fn request_matches(req: &Request, filter_active: bool, filter: &Vec<char>) -> (r: bool)
    ensures
        r == matches_filter(
            req@,
            if filter_active {
                filter@
            } else {
                Seq::empty()
            },
        ),
{
    if !filter_active || filter.len() == 0 {
        return true;
    }
    if str_contains_ci(req.url.as_str(), filter) {
        return true;
    }
    match &req.name {
        Some(n) => str_contains_ci(n.as_str(), filter),
        None => false,
    }
}

/// Saturating subtraction on `u16` offsets.
pub open spec fn sat_sub_u16(x: u16, d: u16) -> u16 {
    if x >= d {
        (x - d) as u16
    } else {
        0
    }
}

/// Saturating addition on `u16` offsets.
pub open spec fn sat_add_u16(x: u16, d: u16) -> u16 {
    if x + d <= u16::MAX {
        (x + d) as u16
    } else {
        u16::MAX
    }
}

/// Saturating addition of two sizes.
pub open spec fn sat_add_usize(x: int, y: int) -> int {
    if x + y <= usize::MAX {
        x + y
    } else {
        usize::MAX as int
    }
}

/// A size squeezed into a `u16`.
pub open spec fn to_u16_sat(x: int) -> u16 {
    if x <= u16::MAX {
        x as u16
    } else {
        u16::MAX
    }
}

/// The number of occurrences of `c` in `s` at or after `i`.
pub open spec fn count_char_from(s: Seq<char>, c: char, i: int) -> int
    decreases s.len() - i,
{
    if i < 0 || i >= s.len() {
        0
    } else {
        (if s[i] == c {
            1int
        } else {
            0int
        }) + count_char_from(s, c, i + 1)
    }
}

/// The number of lines of a body string: its newline count plus one.
pub open spec fn line_count(s: Seq<char>) -> int {
    sat_add_usize(count_char_from(s, '\n', 0), 1)
}

/// Occurrence counts stay within the remaining length.
pub proof fn lemma_count_char_bound(s: Seq<char>, c: char, i: int)
    requires
        0 <= i <= s.len(),
    ensures
        0 <= count_char_from(s, c, i) <= s.len() - i,
    decreases s.len() - i,
{
    if i < s.len() {
        lemma_count_char_bound(s, c, i + 1);
    }
}

/// Adds two sizes, saturating at the type's ceiling.
fn sat_add(a: usize, b: usize) -> (r: usize)
    ensures
        r as int == sat_add_usize(a as int, b as int),
{
    if a <= usize::MAX - b {
        a + b
    } else {
        usize::MAX
    }
}

/// Counts the occurrences of `c` in `s`.
fn count_char(s: &str, c: char) -> (r: usize)
    ensures
        r == count_char_from(s@, c, 0),
{
    let n = s.unicode_len();
    let mut i: usize = 0;
    let mut count: usize = 0;
    proof {
        lemma_count_char_bound(s@, c, 0);
    }
    while i < n
        invariant
            0 <= i <= n,
            n == s@.len(),
            count <= i,
            count + count_char_from(s@, c, i as int) == count_char_from(s@, c, 0),
        decreases n - i,
    {
        if s.get_char(i) == c {
            count = count + 1;
        }
        i = i + 1;
    }
    count
}

/// The selected request's view, if any request is visible.
pub open spec fn spec_selected_request(a: AppView) -> Option<RequestView> {
    if visible_of(a).len() > 0 {
        Some(a.file.requests[visible_of(a)[a.selected as int]])
    } else {
        None
    }
}

/// The variables the selected request uses, as the variables panel lists
/// them.
pub open spec fn spec_used_of(a: AppView) -> Seq<(Seq<char>, Seq<char>)> {
    match spec_selected_request(a) {
        Some(rv) => spec_used_variables(rv, a.file.variables),
        None => Seq::empty(),
    }
}

/// The line count of the request-details panel: one request line, one per
/// header, and — when a body follows headers — one separator plus the
/// body's lines.
pub open spec fn spec_content_lines(a: AppView) -> int {
    match spec_selected_request(a) {
        None => 1,
        Some(rv) => {
            let base = sat_add_usize(1, rv.headers.len() as int);
            match rv.body {
                Some(b) => sat_add_usize(
                    sat_add_usize(
                        base,
                        if rv.headers.len() > 0 {
                            1
                        } else {
                            0
                        },
                    ),
                    line_count(b),
                ),
                None => base,
            }
        },
    }
}

/// The focus after one cycle step: the four main panels form a ring; in
/// history view the two history panels alternate.
pub open spec fn next_focus(f: Focus, history_view: bool) -> Focus {
    if history_view {
        match f {
            Focus::HistoryList => Focus::HistoryDetail,
            _ => Focus::HistoryList,
        }
    } else {
        match f {
            Focus::RequestList => Focus::ResponseBody,
            Focus::ResponseBody => Focus::RequestDetails,
            Focus::RequestDetails => Focus::VariablesList,
            _ => Focus::RequestList,
        }
    }
}

impl App {
    /// Selection indices stay inside their lists, the focus agrees with
    /// the history-view flag, an inactive filter holds no text, and the
    /// loaded file is well formed.
    pub open spec fn wf(&self) -> bool {
        wf_view(self@)
    }

    /// A fresh session over a loaded file: first request selected, request
    /// list focused, nothing executed yet.
    pub fn new(http_file: HttpFile) -> (r: App)
        ensures
            r@ == (AppView {
                file: http_file@,
                selected: 0,
                selected_variable: 0,
                last_response: None,
                should_quit: false,
                focus: Focus::RequestList,
                response_tab: ResponseTab::Body,
                response_scroll: 0,
                response_headers_scroll: 0,
                request_details_scroll: 0,
                request_details_visible_height: 0,
                loading: false,
                filter_active: false,
                filter: Seq::empty(),
                history: Seq::empty(),
                history_view: false,
                selected_history: 0,
                history_detail_scroll: 0,
            }),
            http_file.wf() ==> r.wf(),
    {
        let r = App {
            http_file,
            selected: 0,
            selected_variable: 0,
            last_response: None,
            should_quit: false,
            focus: Focus::RequestList,
            response_tab: ResponseTab::Body,
            response_scroll: 0,
            response_headers_scroll: 0,
            request_details_scroll: 0,
            request_details_visible_height: 0,
            loading: false,
            filter_active: false,
            filter: Vec::new(),
            history: Vec::new(),
            history_view: false,
            selected_history: 0,
            history_detail_scroll: 0,
        };
        proof {
            assert(r@.filter =~= Seq::<char>::empty());
            assert(r@.history =~= Seq::<HistoryEntryView>::empty());
        }
        r
    }

    /// How many requests the filter leaves visible.
    pub fn visible_count(&self) -> (r: usize)
        ensures
            r == visible_of(self@).len(),
    {
        let n = self.http_file.requests.len();
        let mut count: usize = 0;
        let mut k: usize = 0;
        proof {
            assert(count + filtered_from(self@.file.requests, active_filter(self@), 0).len()
                == visible_of(self@).len());
        }
        while k < n
            invariant
                0 <= k <= n,
                count <= k,
                n == self@.file.requests.len(),
                count + filtered_from(self@.file.requests, active_filter(self@), k as int).len()
                    == visible_of(self@).len(),
            decreases n - k,
        {
            if request_matches(&self.http_file.requests[k], self.filter_active, &self.filter) {
                count = count + 1;
            }
            k = k + 1;
        }
        count
    }

    /// The request the selection points at, if any request is visible.
    pub fn selected_request(&self) -> (r: Option<&Request>)
        requires
            self.wf(),
        ensures
            match r {
                Some(req) => spec_selected_request(self@) == Some(req@),
                None => spec_selected_request(self@) is None,
            },
    {
        let ghost vis = visible_of(self@);
        let n = self.http_file.requests.len();
        let mut count: usize = 0;
        let mut k: usize = 0;
        proof {
            assert(vis.take(0) =~= Seq::<int>::empty());
            assert(vis =~= vis.take(0) + filtered_from(self@.file.requests, active_filter(self@), 0));
        }
        while k < n
            invariant
                0 <= k <= n,
                count <= k,
                n == self@.file.requests.len(),
                self.wf(),
                vis == visible_of(self@),
                count as int <= vis.len(),
                vis == vis.take(count as int) + filtered_from(
                    self@.file.requests,
                    active_filter(self@),
                    k as int,
                ),
                count <= self.selected,
            decreases n - k,
        {
            if request_matches(&self.http_file.requests[k], self.filter_active, &self.filter) {
                proof {
                    let rest = filtered_from(self@.file.requests, active_filter(self@), k as int);
                    assert(rest[0] == k as int);
                    assert(vis[count as int] == k as int);
                }
                if count == self.selected {
                    return Some(&self.http_file.requests[k]);
                }
                count = count + 1;
                proof {
                    let rest = filtered_from(self@.file.requests, active_filter(self@), k as int);
                    assert(rest.drop_first() =~= filtered_from(
                        self@.file.requests,
                        active_filter(self@),
                        k as int + 1,
                    ));
                    assert(vis.take(count as int) =~= vis.take(count as int - 1).push(
                        vis[count as int - 1],
                    ));
                    assert(vis =~= vis.take(count as int) + filtered_from(
                        self@.file.requests,
                        active_filter(self@),
                        k as int + 1,
                    ));
                }
            } else {
                proof {
                    assert(filtered_from(self@.file.requests, active_filter(self@), k as int)
                        =~= filtered_from(self@.file.requests, active_filter(self@), k as int + 1));
                }
            }
            k = k + 1;
        }
        proof {
            assert(filtered_from(self@.file.requests, active_filter(self@), n as int)
                =~= Seq::<int>::empty());
            assert(vis =~= vis.take(count as int));
            assert(vis.len() == count);
        }
        None
    }
}

/// Selection moved one up, clamped at the top; moving resets the variable
/// selection and the details scroll.
pub open spec fn spec_select_previous(a: AppView) -> AppView {
    if a.selected > 0 {
        AppView {
            selected: (a.selected - 1) as usize,
            selected_variable: 0,
            request_details_scroll: 0,
            ..a
        }
    } else {
        a
    }
}

/// Selection moved one down, clamped at the end of the visible list;
/// moving resets the variable selection and the details scroll.
pub open spec fn spec_select_next(a: AppView) -> AppView {
    if a.selected + 1 < visible_of(a).len() {
        AppView {
            selected: (a.selected + 1) as usize,
            selected_variable: 0,
            request_details_scroll: 0,
            ..a
        }
    } else {
        a
    }
}

/// Variable selection moved one up, clamped at the top.
pub open spec fn spec_select_previous_variable(a: AppView) -> AppView {
    if a.selected_variable > 0 {
        AppView { selected_variable: (a.selected_variable - 1) as usize, ..a }
    } else {
        a
    }
}

/// Variable selection moved one down, clamped at the end of the used list.
pub open spec fn spec_select_next_variable(a: AppView) -> AppView {
    let mx: int = if spec_used_of(a).len() > 0 {
        spec_used_of(a).len() - 1
    } else {
        0
    };
    if (a.selected_variable as int) < mx {
        AppView { selected_variable: (a.selected_variable + 1) as usize, ..a }
    } else {
        a
    }
}

/// Focus advanced one step along the current ring.
pub open spec fn spec_toggle_focus(a: AppView) -> AppView {
    AppView { focus: next_focus(a.focus, a.history_view), ..a }
}

/// The active response sub-tab scrolled up by `d`, saturating at zero.
pub open spec fn spec_scroll_response_up(a: AppView, d: u16) -> AppView {
    if a.response_tab == ResponseTab::Body {
        AppView { response_scroll: sat_sub_u16(a.response_scroll, d), ..a }
    } else {
        AppView { response_headers_scroll: sat_sub_u16(a.response_headers_scroll, d), ..a }
    }
}

/// The active response sub-tab scrolled down by `d`; the render layer owns
/// the upper bound, so only the type's ceiling applies.
pub open spec fn spec_scroll_response_down(a: AppView, d: u16) -> AppView {
    if a.response_tab == ResponseTab::Body {
        AppView { response_scroll: sat_add_u16(a.response_scroll, d), ..a }
    } else {
        AppView { response_headers_scroll: sat_add_u16(a.response_headers_scroll, d), ..a }
    }
}

/// The response panel switched to the given sub-tab.
pub open spec fn spec_set_response_tab(a: AppView, t: ResponseTab) -> AppView {
    AppView { response_tab: t, ..a }
}

/// The greatest details scroll offset the current content allows.
pub open spec fn spec_details_max_scroll(a: AppView) -> u16 {
    sat_sub_u16(
        to_u16_sat(spec_content_lines(a)),
        sat_sub_u16(a.request_details_visible_height, 2),
    )
}

/// The details panel scrolled up by `d`, saturating at zero.
pub open spec fn spec_scroll_details_up(a: AppView, d: u16) -> AppView {
    AppView { request_details_scroll: sat_sub_u16(a.request_details_scroll, d), ..a }
}

/// The details panel scrolled down by `d`, clamped to the content bound.
pub open spec fn spec_scroll_details_down(a: AppView, d: u16) -> AppView {
    let mx = spec_details_max_scroll(a);
    if a.request_details_scroll < mx {
        let moved = sat_add_u16(a.request_details_scroll, d);
        AppView {
            request_details_scroll: if moved <= mx {
                moved
            } else {
                mx
            },
            ..a
        }
    } else {
        a
    }
}

/// Filter mode entered: selection reset, text still empty.
pub open spec fn spec_enter_filter(a: AppView) -> AppView {
    AppView { filter_active: true, selected: 0, ..a }
}

/// One character appended to the filter; any text change resets the
/// selection.
pub open spec fn spec_push_filter_char(a: AppView, c: char) -> AppView {
    AppView { filter: a.filter.push(c), selected: 0, ..a }
}

/// Backspace in filter mode: drops the last character, or leaves filter
/// mode when the text is already empty; either way the selection resets.
pub open spec fn spec_pop_filter_char(a: AppView) -> AppView {
    if a.filter.len() > 0 {
        AppView { filter: a.filter.drop_last(), selected: 0, ..a }
    } else {
        AppView { filter_active: false, selected: 0, ..a }
    }
}

/// Filter mode left: text cleared, selection reset.
pub open spec fn spec_clear_filter(a: AppView) -> AppView {
    AppView { filter_active: false, filter: Seq::empty(), selected: 0, ..a }
}

/// The history view toggled: entering focuses the history list and jumps
/// to the most recent entry; leaving returns focus to the request list.
pub open spec fn spec_toggle_history(a: AppView) -> AppView {
    if a.history_view {
        AppView { history_view: false, focus: Focus::RequestList, ..a }
    } else {
        AppView {
            history_view: true,
            focus: Focus::HistoryList,
            selected_history: if a.history.len() > 0 {
                (a.history.len() - 1) as usize
            } else {
                0
            },
            ..a
        }
    }
}

/// History selection moved one up, clamped at the oldest entry.
pub open spec fn spec_select_previous_history(a: AppView) -> AppView {
    if a.selected_history > 0 {
        AppView { selected_history: (a.selected_history - 1) as usize, ..a }
    } else {
        a
    }
}

/// History selection moved one down, clamped at the newest entry.
pub open spec fn spec_select_next_history(a: AppView) -> AppView {
    if a.selected_history + 1 < a.history.len() {
        AppView { selected_history: (a.selected_history + 1) as usize, ..a }
    } else {
        a
    }
}

/// The history-detail panel scrolled up by `d`, saturating at zero.
pub open spec fn spec_scroll_history_detail_up(a: AppView, d: u16) -> AppView {
    AppView { history_detail_scroll: sat_sub_u16(a.history_detail_scroll, d), ..a }
}

/// The history-detail panel scrolled down by `d`.
pub open spec fn spec_scroll_history_detail_down(a: AppView, d: u16) -> AppView {
    AppView { history_detail_scroll: sat_add_u16(a.history_detail_scroll, d), ..a }
}

/// An execution began: the loading flag rises and the response scroll
/// offsets reset. No second execution starts while it is set.
pub open spec fn spec_start_execution(a: AppView) -> AppView {
    AppView { loading: true, response_scroll: 0, response_headers_scroll: 0, ..a }
}

/// An execution completed: exactly one entry is appended to the history,
/// the last response becomes this execution's response, the loading flag
/// falls, and an open history view jumps to the newest entry.
pub open spec fn spec_finish_execution(
    a: AppView,
    rv: RequestView,
    resp: ResponseView,
    ts: u64,
) -> AppView {
    AppView {
        history: a.history.push(HistoryEntryView { request: rv, response: resp, timestamp_ms: ts }),
        last_response: Some(resp),
        loading: false,
        selected_history: if a.history_view {
            a.history.len() as usize
        } else {
            a.selected_history
        },
        ..a
    }
}

impl App {
    /// Moves the selection one up; never leaves `[0, visible_count)`.
    pub fn select_previous(&mut self)
        ensures
            final(self)@ == spec_select_previous(old(self)@),
            wf_view(old(self)@) ==> wf_view(final(self)@),
    {
        if self.selected > 0 {
            self.selected = self.selected - 1;
            self.selected_variable = 0;
            self.request_details_scroll = 0;
        }
    }

    /// Moves the selection one down; never leaves `[0, visible_count)`.
    pub fn select_next(&mut self)
        ensures
            final(self)@ == spec_select_next(old(self)@),
            wf_view(old(self)@) ==> wf_view(final(self)@),
    {
        let count = self.visible_count();
        if count > 0 && self.selected < count - 1 {
            self.selected = self.selected + 1;
            self.selected_variable = 0;
            self.request_details_scroll = 0;
        }
    }

    /// Moves the variable selection one up.
    pub fn select_previous_variable(&mut self)
        ensures
            final(self)@ == spec_select_previous_variable(old(self)@),
            wf_view(old(self)@) ==> wf_view(final(self)@),
    {
        if self.selected_variable > 0 {
            self.selected_variable = self.selected_variable - 1;
        }
    }

    /// Moves the variable selection one down, clamped to the used list.
    pub fn select_next_variable(&mut self)
        requires
            old(self).wf(),
        ensures
            final(self)@ == spec_select_next_variable(old(self)@),
            wf_view(final(self)@),
    {
        let used = self.get_used_variables();
        let mx: usize = if used.len() > 0 {
            used.len() - 1
        } else {
            0
        };
        if self.selected_variable < mx {
            self.selected_variable = self.selected_variable + 1;
        }
    }

    /// Advances the focus one step along the current ring.
    pub fn toggle_focus(&mut self)
        ensures
            final(self)@ == spec_toggle_focus(old(self)@),
            wf_view(old(self)@) ==> wf_view(final(self)@),
    {
        self.focus = match (self.focus, self.history_view) {
            (Focus::HistoryList, true) => Focus::HistoryDetail,
            (_, true) => Focus::HistoryList,
            (Focus::RequestList, false) => Focus::ResponseBody,
            (Focus::ResponseBody, false) => Focus::RequestDetails,
            (Focus::RequestDetails, false) => Focus::VariablesList,
            (_, false) => Focus::RequestList,
        };
    }

    /// Requests the session's end.
    pub fn quit(&mut self)
        ensures
            final(self)@ == (AppView { should_quit: true, ..old(self)@ }),
            wf_view(old(self)@) ==> wf_view(final(self)@),
    {
        self.should_quit = true;
    }

    /// Scrolls the active response sub-tab up one line.
    pub fn scroll_up(&mut self)
        ensures
            final(self)@ == spec_scroll_response_up(old(self)@, 1),
            wf_view(old(self)@) ==> wf_view(final(self)@),
    {
        self.scroll_response_up_by(1);
    }

    /// Scrolls the active response sub-tab down one line.
    pub fn scroll_down(&mut self)
        ensures
            final(self)@ == spec_scroll_response_down(old(self)@, 1),
            wf_view(old(self)@) ==> wf_view(final(self)@),
    {
        self.scroll_response_down_by(1);
    }

    /// Scrolls the active response sub-tab up by `d`, saturating at zero.
    pub fn scroll_response_up_by(&mut self, d: u16)
        ensures
            final(self)@ == spec_scroll_response_up(old(self)@, d),
            wf_view(old(self)@) ==> wf_view(final(self)@),
    {
        match self.response_tab {
            ResponseTab::Body => {
                self.response_scroll = if self.response_scroll >= d {
                    self.response_scroll - d
                } else {
                    0
                };
            },
            ResponseTab::Headers => {
                self.response_headers_scroll = if self.response_headers_scroll >= d {
                    self.response_headers_scroll - d
                } else {
                    0
                };
            },
        }
    }

    /// Scrolls the active response sub-tab down by `d`.
    pub fn scroll_response_down_by(&mut self, d: u16)
        ensures
            final(self)@ == spec_scroll_response_down(old(self)@, d),
            wf_view(old(self)@) ==> wf_view(final(self)@),
    {
        match self.response_tab {
            ResponseTab::Body => {
                self.response_scroll = if self.response_scroll <= u16::MAX - d {
                    self.response_scroll + d
                } else {
                    u16::MAX
                };
            },
            ResponseTab::Headers => {
                self.response_headers_scroll = if self.response_headers_scroll <= u16::MAX - d {
                    self.response_headers_scroll + d
                } else {
                    u16::MAX
                };
            },
        }
    }

    /// Switches the response panel's sub-tab.
    pub fn set_response_tab(&mut self, t: ResponseTab)
        ensures
            final(self)@ == spec_set_response_tab(old(self)@, t),
            wf_view(old(self)@) ==> wf_view(final(self)@),
    {
        self.response_tab = t;
    }

    /// The number of lines the details panel would draw for the selected
    /// request.
    pub fn request_details_content_lines(&self) -> (r: usize)
        requires
            self.wf(),
        ensures
            r as int == spec_content_lines(self@),
    {
        let req = match self.selected_request() {
            Some(req) => req,
            None => {
                return 1;
            },
        };
        let mut lines: usize = sat_add(1, req.headers.len());
        match &req.body {
            Some(body) => {
                if req.headers.len() > 0 {
                    lines = sat_add(lines, 1);
                }
                let newlines = count_char(body.as_str(), '\n');
                proof {
                    lemma_count_char_bound(body@, '\n', 0);
                }
                lines = sat_add(lines, sat_add(newlines, 1));
            },
            None => {},
        }
        lines
    }

    /// Scrolls the details panel up one line.
    pub fn scroll_request_details_up(&mut self)
        ensures
            final(self)@ == spec_scroll_details_up(old(self)@, 1),
            wf_view(old(self)@) ==> wf_view(final(self)@),
    {
        self.request_details_scroll = if self.request_details_scroll >= 1 {
            self.request_details_scroll - 1
        } else {
            0
        };
    }

    /// Scrolls the details panel down one line, clamped so the content's
    /// last lines stay reachable but never overshot.
    pub fn scroll_request_details_down(&mut self)
        requires
            old(self).wf(),
        ensures
            final(self)@ == spec_scroll_details_down(old(self)@, 1),
            wf_view(final(self)@),
    {
        self.scroll_request_details_down_by(1);
    }

    /// Scrolls the details panel down by `d`, clamped to the content.
    pub fn scroll_request_details_down_by(&mut self, d: u16)
        requires
            old(self).wf(),
        ensures
            final(self)@ == spec_scroll_details_down(old(self)@, d),
            wf_view(final(self)@),
    {
        let content = self.request_details_content_lines();
        let content16: u16 = if content <= u16::MAX as usize {
            content as u16
        } else {
            u16::MAX
        };
        let visible: u16 = if self.request_details_visible_height >= 2 {
            self.request_details_visible_height - 2
        } else {
            0
        };
        let mx: u16 = if content16 >= visible {
            content16 - visible
        } else {
            0
        };
        if self.request_details_scroll < mx {
            let moved: u16 = if self.request_details_scroll <= u16::MAX - d {
                self.request_details_scroll + d
            } else {
                u16::MAX
            };
            self.request_details_scroll = if moved <= mx {
                moved
            } else {
                mx
            };
        }
    }

    /// Scrolls the details panel up by `d`, saturating at zero.
    pub fn scroll_request_details_up_by(&mut self, d: u16)
        ensures
            final(self)@ == spec_scroll_details_up(old(self)@, d),
            wf_view(old(self)@) ==> wf_view(final(self)@),
    {
        self.request_details_scroll = if self.request_details_scroll >= d {
            self.request_details_scroll - d
        } else {
            0
        };
    }

    /// Enters filter mode and resets the selection.
    pub fn enter_filter(&mut self)
        ensures
            final(self)@ == spec_enter_filter(old(self)@),
            wf_view(old(self)@) ==> wf_view(final(self)@),
    {
        self.filter_active = true;
        self.selected = 0;
    }

    /// Appends one character to the filter text and resets the selection.
    pub fn push_filter_char(&mut self, c: char)
        requires
            old(self).filter_active,
        ensures
            final(self)@ == spec_push_filter_char(old(self)@, c),
            wf_view(old(self)@) ==> wf_view(final(self)@),
    {
        self.filter.push(c);
        self.selected = 0;
    }

    /// Backspace in filter mode: drops the last character, or leaves
    /// filter mode when the text is empty; resets the selection.
    pub fn pop_filter_char(&mut self)
        ensures
            final(self)@ == spec_pop_filter_char(old(self)@),
            wf_view(old(self)@) ==> wf_view(final(self)@),
    {
        if self.filter.len() > 0 {
            self.filter.pop();
        } else {
            self.filter_active = false;
        }
        self.selected = 0;
    }

    /// Leaves filter mode, clearing the text and resetting the selection.
    pub fn clear_filter(&mut self)
        ensures
            final(self)@ == spec_clear_filter(old(self)@),
            wf_view(old(self)@) ==> wf_view(final(self)@),
    {
        self.filter = Vec::new();
        self.filter_active = false;
        self.selected = 0;
        proof {
            assert(self@.filter =~= Seq::<char>::empty());
            assert(self@ =~= spec_clear_filter(old(self)@));
        }
    }

    /// Toggles the history view; entering focuses the history list on the
    /// most recent entry, leaving returns to the request list.
    pub fn toggle_history_view(&mut self)
        ensures
            final(self)@ == spec_toggle_history(old(self)@),
            wf_view(old(self)@) ==> wf_view(final(self)@),
    {
        if self.history_view {
            self.history_view = false;
            self.focus = Focus::RequestList;
        } else {
            self.history_view = true;
            self.focus = Focus::HistoryList;
            if self.history.len() > 0 {
                self.selected_history = self.history.len() - 1;
            } else {
                self.selected_history = 0;
            }
        }
    }

    /// Moves the history selection one up; never leaves the history.
    pub fn select_previous_history(&mut self)
        ensures
            final(self)@ == spec_select_previous_history(old(self)@),
            wf_view(old(self)@) ==> wf_view(final(self)@),
    {
        if self.selected_history > 0 {
            self.selected_history = self.selected_history - 1;
        }
    }

    /// Moves the history selection one down; never leaves the history.
    pub fn select_next_history(&mut self)
        ensures
            final(self)@ == spec_select_next_history(old(self)@),
            wf_view(old(self)@) ==> wf_view(final(self)@),
    {
        let n = self.history.len();
        if n > 0 && self.selected_history < n - 1 {
            self.selected_history = self.selected_history + 1;
        }
    }

    /// Scrolls the history-detail panel up by `d`.
    pub fn scroll_history_detail_up(&mut self, d: u16)
        ensures
            final(self)@ == spec_scroll_history_detail_up(old(self)@, d),
            wf_view(old(self)@) ==> wf_view(final(self)@),
    {
        self.history_detail_scroll = if self.history_detail_scroll >= d {
            self.history_detail_scroll - d
        } else {
            0
        };
    }

    /// Scrolls the history-detail panel down by `d`.
    pub fn scroll_history_detail_down(&mut self, d: u16)
        ensures
            final(self)@ == spec_scroll_history_detail_down(old(self)@, d),
            wf_view(old(self)@) ==> wf_view(final(self)@),
    {
        self.history_detail_scroll = if self.history_detail_scroll <= u16::MAX - d {
            self.history_detail_scroll + d
        } else {
            u16::MAX
        };
    }

    /// Marks an execution as started: the loading flag rises and the
    /// response scroll offsets reset. The loop must not start another
    /// while it is set.
    pub fn start_execution(&mut self)
        ensures
            final(self)@ == spec_start_execution(old(self)@),
            wf_view(old(self)@) ==> wf_view(final(self)@),
    {
        self.loading = true;
        self.response_scroll = 0;
        self.response_headers_scroll = 0;
    }

    /// Folds one completed execution back in: appends exactly one history
    /// entry, makes its response the last response, clears the loading
    /// flag, and — when the history view is open — selects the new entry.
    pub fn finish_execution(&mut self, request: Request, response: Response, timestamp_ms: u64)
        ensures
            final(self)@ == spec_finish_execution(old(self)@, request@, response@, timestamp_ms),
            wf_view(old(self)@) ==> wf_view(final(self)@),
    {
        let resp_copy = response.clone();
        let ghost prev = self@.history;
        self.history.push(HistoryEntry { request, response, timestamp_ms });
        self.last_response = Some(resp_copy);
        self.loading = false;
        if self.history_view {
            self.selected_history = self.history.len() - 1;
        }
        proof {
            assert(self@.history =~= prev.push(
                HistoryEntryView { request: request@, response: response@, timestamp_ms },
            ));
        }
    }

    /// The variables the selected request actually references: placeholder
    /// names from its URL, header values and body, first occurrences only,
    /// kept when the file's table binds them, each with its value.
    pub fn get_used_variables(&self) -> (r: Vec<(String, String)>)
        requires
            self.wf(),
        ensures
            r@.map_values(|p: (String, String)| (p.0@, p.1@)) == spec_used_of(self@),
    {
        let req = match self.selected_request() {
            Some(req) => req,
            None => {
                let r: Vec<(String, String)> = Vec::new();
                proof {
                    assert(r@.map_values(|p: (String, String)| (p.0@, p.1@)) =~= Seq::<(
                        Seq<char>,
                        Seq<char>,
                    )>::empty());
                }
                return r;
            },
        };
        let mut names: Vec<String> = Vec::new();
        proof {
            assert(names@.map_values(|x: String| x@) =~= Seq::<Seq<char>>::empty());
        }
        collect_placeholders(req.url.as_str(), &mut names);
        let hn = req.headers.len();
        let mut k: usize = 0;
        proof {
            assert(req@.headers.take(0) =~= Seq::<(Seq<char>, Seq<char>)>::empty());
            assert(Seq::<Seq<char>>::empty() + placeholders(req@.url) =~= placeholders(req@.url));
            assert(placeholders(req@.url) + header_values_placeholders(req@.headers.take(0))
                =~= placeholders(req@.url));
        }
        while k < hn
            invariant
                0 <= k <= hn,
                hn == req@.headers.len(),
                names@.map_values(|x: String| x@) == placeholders(req@.url)
                    + header_values_placeholders(req@.headers.take(k as int)),
            decreases hn - k,
        {
            let (_, v) = req.headers.pair_at(k);
            collect_placeholders(v.as_str(), &mut names);
            proof {
                crate::variable::lemma_header_values_placeholders_snoc(
                    req@.headers.take(k as int),
                    req@.headers[k as int],
                );
                assert(req@.headers.take(k as int + 1) =~= req@.headers.take(k as int).push(
                    req@.headers[k as int],
                ));
                assert(placeholders(req@.url) + (header_values_placeholders(
                    req@.headers.take(k as int),
                ) + placeholders(req@.headers[k as int].1)) =~= (placeholders(req@.url)
                    + header_values_placeholders(req@.headers.take(k as int))) + placeholders(
                    req@.headers[k as int].1,
                ));
            }
            k = k + 1;
        }
        proof {
            assert(req@.headers.take(hn as int) =~= req@.headers);
        }
        match &req.body {
            Some(body) => {
                collect_placeholders(body.as_str(), &mut names);
            },
            None => {
                proof {
                    assert(names@.map_values(|x: String| x@) + Seq::<Seq<char>>::empty()
                        =~= names@.map_values(|x: String| x@));
                }
            },
        }
        proof {
            assert(names@.map_values(|x: String| x@) == crate::variable::request_placeholders(
                req@,
            ));
        }
        let deduped = dedup_names(&names);
        pairs_for_names(&deduped, &self.http_file.variables)
    }
}

/// Cycling the focus returns it to its start after exactly the ring's
/// size: four steps among the main panels, two inside the history view.
pub proof fn lemma_focus_cycle(a: AppView)
    requires
        wf_view(a),
    ensures
        !a.history_view ==> spec_toggle_focus(
            spec_toggle_focus(spec_toggle_focus(spec_toggle_focus(a))),
        ) == a,
        a.history_view ==> spec_toggle_focus(spec_toggle_focus(a)) == a,
{
    if a.history_view {
        assert(spec_toggle_focus(spec_toggle_focus(a)) =~= a);
    } else {
        assert(spec_toggle_focus(spec_toggle_focus(spec_toggle_focus(spec_toggle_focus(a)))) =~= a);
    }
}

/// The session after a sequence of executions, each folded in by the
/// start and finish steps.
pub open spec fn apply_executions(
    a: AppView,
    entries: Seq<(RequestView, ResponseView, u64)>,
) -> AppView
    decreases entries.len(),
{
    if entries.len() == 0 {
        a
    } else {
        let e = entries[0];
        apply_executions(
            spec_finish_execution(spec_start_execution(a), e.0, e.1, e.2),
            entries.drop_first(),
        )
    }
}

/// After any number of executions — successes and failures alike — the
/// history holds exactly one entry per execution, in chronological order,
/// and the last response is the most recent execution's response.
pub proof fn lemma_history_of_executions(
    a: AppView,
    entries: Seq<(RequestView, ResponseView, u64)>,
)
    ensures
        apply_executions(a, entries).history == a.history + entries.map_values(
            |e: (RequestView, ResponseView, u64)|
                HistoryEntryView { request: e.0, response: e.1, timestamp_ms: e.2 },
        ),
        entries.len() > 0 ==> apply_executions(a, entries).last_response == Some(entries.last().1)
            && !apply_executions(a, entries).loading,
        entries.len() == 0 ==> apply_executions(a, entries) == a,
    decreases entries.len(),
{
    let f = |e: (RequestView, ResponseView, u64)|
        HistoryEntryView { request: e.0, response: e.1, timestamp_ms: e.2 };
    if entries.len() == 0 {
        assert(a.history + entries.map_values(f) =~= a.history);
    } else {
        let e = entries[0];
        let a1 = spec_finish_execution(spec_start_execution(a), e.0, e.1, e.2);
        lemma_history_of_executions(a1, entries.drop_first());
        assert(entries.drop_first().map_values(f) =~= entries.map_values(f).drop_first());
        assert(a1.history =~= a.history.push(f(e)));
        assert(a1.history + entries.drop_first().map_values(f) =~= a.history + entries.map_values(
            f,
        ));
        if entries.len() > 1 {
            assert(entries.drop_first().last() == entries.last());
        }
    }
}

/// The well-formedness of a session state.
pub open spec fn wf_view(a: AppView) -> bool {
    &&& (if visible_of(a).len() > 0 {
        (a.selected as int) < visible_of(a).len()
    } else {
        a.selected == 0
    })
    &&& (if a.history.len() > 0 {
        (a.selected_history as int) < a.history.len()
    } else {
        a.selected_history == 0
    })
    &&& (a.history_view <==> (a.focus == Focus::HistoryList || a.focus == Focus::HistoryDetail))
    &&& (!a.filter_active ==> a.filter.len() == 0)
    &&& forall|i: int|
        0 <= i < a.file.requests.len() ==> crate::strmap::assoc_unique(
            (#[trigger] a.file.requests[i]).headers,
        )
    &&& crate::strmap::assoc_unique(a.file.variables)
}

} // verus!
