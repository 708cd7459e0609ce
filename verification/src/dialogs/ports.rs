//! The dialog for ports: those of the sandbox that are forwarded, those of the host it may reach.

use crate::text;
use crate::theme::ColorRole;
use vstd::prelude::*;

verus! {

/// Which ports are listed.
#[derive(Clone, Copy, Debug, PartialEq, Eq, Structural)]
pub enum Tab {
    Forward,
    ExposeHost,
}

#[derive(Clone, Copy, Debug, PartialEq, Eq, Structural)]
pub enum PortsView {
    List,
    AddForward,
    AddExposeHost,
}

/// A port of the sandbox and the port of the host it is joined to.
#[derive(Clone, Copy, Debug, PartialEq, Eq, Structural)]
pub struct PortPair {
    pub guest_port: u16,
    pub host_port: u16,
}

/// The state of the dialog.
#[derive(Debug)]
pub struct PortsDialog {
    pub workspace_id: i64,
    pub tab: Tab,
    pub view: PortsView,
    pub placeholder_a: String,
    pub placeholder_b: String,
    pub value_a: String,
    pub value_b: String,
}

/// The heading of a list.
#[derive(Debug)]
pub struct TabHead {
    pub title: &'static str,
    pub badge: Option<String>,
    pub color: ColorRole,
    pub underlined: bool,
}

/// What the dialog shows below its headings.
#[derive(Debug)]
pub enum PortsBody {
    /// A list without entries, and its button.
    Empty { note: &'static str, button: &'static str },
    Rows { rows: Vec<String>, button: &'static str },
    Form { texts: FormTexts },
}

/// The texts of the form for another port.
#[derive(Clone, Copy, Debug)]
pub struct FormTexts {
    pub title: &'static str,
    pub label_a: &'static str,
    pub label_b: &'static str,
    pub hint: &'static str,
}

/// The value of digits, or nothing where there is another character.
pub open spec fn digits_value(s: Seq<char>) -> Option<nat>
    decreases s.len(),
{
    if s.len() == 0 {
        Some(0)
    } else {
        match digits_value(s.drop_last()) {
            Some(n) => if '0' <= s.last() <= '9' {
                Some((10 * n + (s.last() as int - '0' as int)) as nat)
            } else {
                None
            },
            None => None,
        }
    }
}

/// The number that a text stands for: digits, with a plus sign before them or not.
pub open spec fn number(s: Seq<char>) -> Option<nat> {
    let digits = if s.len() > 0 && s[0] == '+' {
        s.drop_first()
    } else {
        s
    };
    if digits.len() == 0 {
        None
    } else {
        digits_value(digits)
    }
}

/// The port that a text stands for, white space at its ends aside.
pub open spec fn port(s: Seq<char>) -> Option<u16> {
    match number(text::trimmed(s)) {
        Some(n) => if 0 < n <= 65535 {
            Some(n as u16)
        } else {
            None
        },
        None => None,
    }
}

/// The two ports of a form: without a second one it is the first again.
pub open spec fn ports(a: Seq<char>, b: Seq<char>) -> Option<(u16, u16)> {
    match port(a) {
        Some(first) => if text::trimmed(b).len() == 0 {
            Some((first, first))
        } else {
            match port(b) {
                Some(second) => Some((first, second)),
                None => None,
            }
        },
        None => None,
    }
}

proof fn lemma_digits_grow(s: Seq<char>, k: int)
    requires
        0 <= k <= s.len(),
    ensures
        digits_value(s) matches Some(n) ==> digits_value(s.take(k)) matches Some(m) && m <= n,
    decreases s.len() - k,
{
    if k < s.len() {
        lemma_digits_grow(s, k + 1);
        assert(s.take(k + 1).drop_last() =~= s.take(k));
    } else {
        assert(s.take(k) =~= s);
    }
}

fn digit_of(c: char) -> (d: Option<u32>)
    ensures
        match d {
            Some(n) => '0' <= c <= '9' && n == c as int - '0' as int && n <= 9,
            None => !('0' <= c <= '9'),
        },
{
    let v: u32 = c as u32;
    if 48 <= v && v <= 57 {
        Some(v - 48)
    } else {
        None
    }
}

/// The port that a text stands for.
pub fn parse_port(s: &str) -> (r: Option<u16>)
    ensures
        r == port(s@),
{
    let t = text::trim(s);
    let chars = text::to_chars(t.as_str());
    let mut i: usize = 0;
    if chars.len() > 0 && chars[0] == '+' {
        i = 1;
    }
    let ghost digits = t@.skip(i as int);
    proof {
        if i == 1 {
            assert(digits =~= t@.drop_first());
        } else {
            assert(digits =~= t@);
        }
        assert(digits.take(0) =~= Seq::<char>::empty());
    }
    let start: usize = i;
    if i == chars.len() {
        return None;
    }
    let mut n: u32 = 0;
    while i < chars.len()
        invariant
            start <= i <= chars@.len(),
            start < chars@.len(),
            chars@ == t@,
            t@ == text::trimmed(s@),
            digits == t@.skip(start as int),
            number(t@) == digits_value(digits),
            n <= 65535,
            digits_value(digits.take(i - start)) == Some(n as nat),
        decreases chars@.len() - i,
    {
        proof {
            lemma_digits_grow(digits, i - start + 1);
            assert(digits.take(i - start + 1).drop_last() =~= digits.take(i - start));
            assert(digits.take(i - start + 1).last() == chars@[i as int]);
        }
        match digit_of(chars[i]) {
            Some(d) => {
                n = 10 * n + d;
            },
            None => {
                return None;
            },
        }
        if n > 65535 {
            return None;
        }
        i += 1;
    }
    assert(digits.take(i - start) =~= digits);
    if n > 0 {
        Some(n as u16)
    } else {
        None
    }
}

fn parse_ports(a: &str, b: &str) -> (r: Option<(u16, u16)>)
    ensures
        r == ports(a@, b@),
{
    match parse_port(a) {
        None => None,
        Some(first) => {
            let rest = text::trim(b);
            let chars = text::to_chars(rest.as_str());
            if chars.len() == 0 {
                Some((first, first))
            } else {
                match parse_port(b) {
                    Some(second) => Some((first, second)),
                    None => None,
                }
            }
        },
    }
}

impl PortsDialog {
    pub fn new(workspace_id: i64) -> (d: Self)
        ensures
            d.workspace_id == workspace_id,
            d.tab == Tab::Forward,
            d.view == PortsView::List,
            d.value_a@ == Seq::<char>::empty(),
            d.value_b@ == Seq::<char>::empty(),
            d.placeholder_a@ == Seq::<char>::empty(),
            d.placeholder_b@ == Seq::<char>::empty(),
    {
        PortsDialog {
            workspace_id,
            tab: Tab::Forward,
            view: PortsView::List,
            placeholder_a: String::new(),
            placeholder_b: String::new(),
            value_a: String::new(),
            value_b: String::new(),
        }
    }

    /// Goes to the other list.
    pub fn switch_tab(&mut self, tab: Tab)
        ensures
            *final(self) == (PortsDialog { tab, view: PortsView::List, ..*old(self) }),
    {
        self.tab = tab;
        self.view = PortsView::List;
    }

    /// Opens the empty form for another port of the list.
    pub fn show_add(&mut self)
        ensures
            final(self).view == (match old(self).tab {
                Tab::Forward => PortsView::AddForward,
                Tab::ExposeHost => PortsView::AddExposeHost,
            }),
            final(self).placeholder_a@ == (match old(self).tab {
                Tab::Forward => "e.g. 3000"@,
                Tab::ExposeHost => "e.g. 5432"@,
            }),
            final(self).placeholder_b@ == "Defaults to same port"@,
            final(self).value_a@ == Seq::<char>::empty(),
            final(self).value_b@ == Seq::<char>::empty(),
            final(self).tab == old(self).tab,
            final(self).workspace_id == old(self).workspace_id,
    {
        match self.tab {
            Tab::Forward => {
                self.view = PortsView::AddForward;
                self.placeholder_a = "e.g. 3000".to_owned();
            },
            Tab::ExposeHost => {
                self.view = PortsView::AddExposeHost;
                self.placeholder_a = "e.g. 5432".to_owned();
            },
        }
        self.placeholder_b = "Defaults to same port".to_owned();
        self.value_a = String::new();
        self.value_b = String::new();
    }

    /// Goes back to the list.
    pub fn cancel_add(&mut self)
        ensures
            *final(self) == (PortsDialog { view: PortsView::List, ..*old(self) }),
    {
        self.view = PortsView::List;
    }

    /// The ports that the form asks for, where they can be read: the port of the sandbox comes
    /// first on the one form, that of the host on the other. The list asks for none.
    pub fn submit(&self) -> (r: Option<PortPair>)
        ensures
            r == (match self.view {
                PortsView::List => None,
                PortsView::AddForward => match ports(self.value_a@, self.value_b@) {
                    Some((first, second)) => Some(
                        PortPair { guest_port: first, host_port: second },
                    ),
                    None => None,
                },
                PortsView::AddExposeHost => match ports(self.value_a@, self.value_b@) {
                    Some((first, second)) => Some(
                        PortPair { guest_port: second, host_port: first },
                    ),
                    None => None,
                },
            }),
    {
        match self.view {
            PortsView::List => None,
            PortsView::AddForward => match parse_ports(self.value_a.as_str(), self.value_b.as_str()) {
                Some((first, second)) => Some(PortPair { guest_port: first, host_port: second }),
                None => None,
            },
            PortsView::AddExposeHost => match parse_ports(
                self.value_a.as_str(),
                self.value_b.as_str(),
            ) {
                Some((first, second)) => Some(PortPair { guest_port: second, host_port: first }),
                None => None,
            },
        }
    }

    /// The headings of the two lists, which show above the lists only.
    pub fn heads(&self, forwarded: usize, exposed: usize) -> (r: Option<(TabHead, TabHead)>)
        ensures
            match r {
                Some((a, b)) => self.view == PortsView::List && head_is(
                    a,
                    Tab::Forward,
                    self.tab,
                    forwarded,
                ) && head_is(b, Tab::ExposeHost, self.tab, exposed),
                None => self.view != PortsView::List,
            },
    {
        if self.view == PortsView::List {
            Some(
                (head(Tab::Forward, self.tab, forwarded), head(Tab::ExposeHost, self.tab, exposed)),
            )
        } else {
            None
        }
    }

    /// What the dialog shows below its headings; `pairs` are those of the list that is open.
    pub fn body(&self, pairs: &Vec<PortPair>) -> (b: PortsBody)
        ensures
            match b {
                PortsBody::Form { texts } => form_of(self.view) == Some(
                    (texts.title@, texts.label_a@, texts.label_b@, texts.hint@),
                ),
                PortsBody::Empty { note, button } => self.view == PortsView::List && pairs@.len()
                    == 0 && note@ == texts_of(self.tab).1 && button@ == texts_of(self.tab).2,
                PortsBody::Rows { rows, button } => self.view == PortsView::List && pairs@.len()
                    > 0 && button@ == texts_of(self.tab).2 && rows@.len() == pairs@.len() && forall|
                    i: int,
                |
                    0 <= i < rows@.len() ==> (#[trigger] rows@[i])@ == row_text(
                        self.tab,
                        pairs@[i],
                    ),
            },
    {
        if let Some(texts) = form_texts(self.view) {
            return PortsBody::Form { texts };
        }
        let (_, note, button) = list_texts(self.tab);
        if pairs.len() == 0 {
            return PortsBody::Empty { note, button };
        }
        let mut rows: Vec<String> = Vec::new();
        let mut i: usize = 0;
        while i < pairs.len()
            invariant
                i <= pairs@.len(),
                rows@.len() == i,
                forall|j: int|
                    0 <= j < i ==> (#[trigger] rows@[j])@ == row_text(self.tab, pairs@[j]),
            decreases pairs@.len() - i,
        {
            let row = match self.tab {
                Tab::Forward => forward_label(pairs[i]),
                Tab::ExposeHost => expose_label(pairs[i]),
            };
            rows.push(row);
            i += 1;
        }
        PortsBody::Rows { rows, button }
    }

    /// Escape leaves a form, else the dialog. Tells whether the dialog goes away.
    pub fn escape(&mut self) -> (dismiss: bool)
        ensures
            dismiss == (old(self).view == PortsView::List),
            *final(self) == (PortsDialog { view: PortsView::List, ..*old(self) }),
    {
        let dismiss = match self.view {
            PortsView::List => true,
            _ => false,
        };
        self.view = PortsView::List;
        dismiss
    }
}

/// The row of a pair of ports in a list.
pub open spec fn row_text(tab: Tab, p: PortPair) -> Seq<char> {
    match tab {
        Tab::Forward => ":"@ + text::decimal(p.guest_port as nat) + " \u{2192} localhost:"@
            + text::decimal(p.host_port as nat),
        Tab::ExposeHost => "localhost:"@ + text::decimal(p.host_port as nat)
            + " \u{2192} sandbox:"@ + text::decimal(p.guest_port as nat),
    }
}

/// The title of a list, what it says when empty, and its button.
pub open spec fn texts_of(tab: Tab) -> (Seq<char>, Seq<char>, Seq<char>) {
    match tab {
        Tab::Forward => ("Forward"@, "No forwarded ports"@, "Forward Port"@),
        Tab::ExposeHost => ("Expose Host"@, "No host ports exposed"@, "Expose Port"@),
    }
}

/// The texts of a form: its title, the labels of its inputs, and a hint.
pub open spec fn form_of(view: PortsView) -> Option<
    (Seq<char>, Seq<char>, Seq<char>, Seq<char>),
> {
    match view {
        PortsView::List => None,
        PortsView::AddForward => Some(
            (
                "Forward Port"@,
                "Port"@,
                "Forward to"@,
                "Leave empty to use the same port on host"@,
            ),
        ),
        PortsView::AddExposeHost => Some(
            (
                "Expose Host Port"@,
                "Host Port"@,
                "Sandbox Port"@,
                "Accessible at host.shuru.internal:<port> inside the sandbox"@,
            ),
        ),
    }
}

/// The row of a forwarded port.
pub fn forward_label(p: PortPair) -> (s: String)
    ensures
        s@ == row_text(Tab::Forward, p),
{
    let mut s = ":".to_owned();
    text::push_decimal(&mut s, p.guest_port as u64);
    s.append(" \u{2192} localhost:");
    text::push_decimal(&mut s, p.host_port as u64);
    s
}

/// The row of a port of the host that the sandbox may reach.
pub fn expose_label(p: PortPair) -> (s: String)
    ensures
        s@ == row_text(Tab::ExposeHost, p),
{
    let mut s = "localhost:".to_owned();
    text::push_decimal(&mut s, p.host_port as u64);
    s.append(" \u{2192} sandbox:");
    text::push_decimal(&mut s, p.guest_port as u64);
    s
}

/// The heading of a list: the open one is underlined, and one with entries shows their number.
pub open spec fn head_is(head: TabHead, tab: Tab, open: Tab, count: usize) -> bool {
    &&& head.title@ == texts_of(tab).0
    &&& head.underlined == (tab == open)
    &&& head.color == (if tab == open {
        ColorRole::TextSecondary
    } else {
        ColorRole::TextGhost
    })
    &&& match head.badge {
        Some(s) => count > 0 && s@ == text::decimal(count as nat),
        None => count == 0,
    }
}

fn head(tab: Tab, open: Tab, count: usize) -> (h: TabHead)
    ensures
        head_is(h, tab, open, count),
{
    let (title, _, _) = list_texts(tab);
    TabHead {
        title,
        badge: badge(count),
        color: if tab == open {
            ColorRole::TextSecondary
        } else {
            ColorRole::TextGhost
        },
        underlined: tab == open,
    }
}

/// The count beside the title of a list, where it has entries.
pub fn badge(count: usize) -> (r: Option<String>)
    ensures
        match r {
            Some(s) => count > 0 && s@ == text::decimal(count as nat),
            None => count == 0,
        },
{
    if count > 0 {
        Some(text::decimal_text(count as u64))
    } else {
        None
    }
}

/// The title of a list, what it says when empty, and its button.
pub fn list_texts(tab: Tab) -> (r: (&'static str, &'static str, &'static str))
    ensures
        (r.0@, r.1@, r.2@) == texts_of(tab),
{
    match tab {
        Tab::Forward => ("Forward", "No forwarded ports", "Forward Port"),
        Tab::ExposeHost => ("Expose Host", "No host ports exposed", "Expose Port"),
    }
}

/// The texts of a form; the list has none.
pub fn form_texts(view: PortsView) -> (r: Option<FormTexts>)
    ensures
        match r {
            Some(t) => form_of(view) == Some((t.title@, t.label_a@, t.label_b@, t.hint@)),
            None => form_of(view) is None,
        },
{
    match view {
        PortsView::List => None,
        PortsView::AddForward => Some(
            FormTexts {
                title: "Forward Port",
                label_a: "Port",
                label_b: "Forward to",
                hint: "Leave empty to use the same port on host",
            },
        ),
        PortsView::AddExposeHost => Some(
            FormTexts {
                title: "Expose Host Port",
                label_a: "Host Port",
                label_b: "Sandbox Port",
                hint: "Accessible at host.shuru.internal:<port> inside the sandbox",
            },
        ),
    }
}

proof fn lemma_decimal_digits(n: nat)
    ensures
        digits_value(text::decimal(n)) == Some(n),
        text::decimal(n).len() > 0,
        '0' <= text::decimal(n)[0] <= '9',
        forall|i: int|
            0 <= i < text::decimal(n).len() ==> '0' <= #[trigger] text::decimal(n)[i] <= '9',
    decreases n,
{
    let d = text::decimal(n);
    if n < 10 {
        assert(d.drop_last() =~= Seq::<char>::empty());
        assert(digits_value(Seq::<char>::empty()) == Some(0nat));
    } else {
        lemma_decimal_digits(n / 10);
        assert(d.drop_last() =~= text::decimal(n / 10));
        assert(n == 10 * (n / 10) + n % 10) by (nonlinear_arith);
    }
}

/// A port that is written in decimal is read as it was.
pub proof fn law_port_reads_back(p: u16)
    requires
        p > 0,
    ensures
        port(text::decimal(p as nat)) == Some(p),
{
    let d = text::decimal(p as nat);
    lemma_decimal_digits(p as nat);
    assert(!text::is_space(d[0]));
    assert(text::trim_start(d) == d);
    assert('0' <= d[d.len() - 1] <= '9');
    assert(!text::is_space(d.last()));
}

/// Any number above zero that fits is a port, written plainly or with white space around it or a
/// plus sign before it; a number that does not fit is none.
pub proof fn law_which_numbers_are_ports(n: nat)
    ensures
        port(text::decimal(n)) is Some <==> 0 < n <= 65535,
        0 < n <= 65535 ==> port(text::decimal(n)) == Some(n as u16),
        number(seq!['+'] + text::decimal(n)) == number(text::decimal(n)),
{
    lemma_decimal_digits(n);
    let d = text::decimal(n);
    assert(text::trimmed(d) == d) by {
        assert('0' <= d[0] <= '9');
        assert('0' <= d[d.len() - 1] <= '9');
        assert(text::trim_start(d) == d);
        assert(text::trim_end(d) == d);
    }
    let plus = seq!['+'] + d;
    assert(plus.drop_first() =~= d);
}

/// White space around a port makes no difference.
pub proof fn law_port_without_white_space(s: Seq<char>)
    ensures
        port(text::trimmed(s)) == port(s),
{
    text::law_trimmed(s);
}

/// A form gives two ports only where both that it holds are ports; without a second one, the first
/// counts twice.
pub proof fn law_two_ports(a: Seq<char>, b: Seq<char>)
    ensures
        ports(a, b) is Some <==> port(a) is Some && (text::trimmed(b).len() == 0 || port(b) is Some),
        ports(a, b) matches Some((x, y)) ==> port(a) == Some(x) && (text::trimmed(b).len() == 0
            ==> y == x) && (text::trimmed(b).len() > 0 ==> port(b) == Some(y)),
{
}

/// Of the two headings exactly that of the open list is underlined and stands out, and a heading
/// has a number exactly where its list has entries.
pub proof fn law_open_list_is_underlined(
    a: TabHead,
    b: TabHead,
    open: Tab,
    forwarded: usize,
    exposed: usize,
)
    requires
        head_is(a, Tab::Forward, open, forwarded),
        head_is(b, Tab::ExposeHost, open, exposed),
    ensures
        a.underlined <==> open == Tab::Forward,
        b.underlined <==> open == Tab::ExposeHost,
        a.underlined != b.underlined,
        a.color != b.color,
        a.badge is Some <==> forwarded > 0,
        b.badge is Some <==> exposed > 0,
{
}

/// The open list has the stronger colour of the two, whichever it is.
pub proof fn law_open_list_stands_out(head: TabHead, tab: Tab, open: Tab, count: usize)
    requires
        head_is(head, tab, open, count),
    ensures
        head.color == ColorRole::TextSecondary <==> tab == open,
        head.color == ColorRole::TextGhost <==> tab != open,
        head.badge matches Some(s) ==> s@ == text::decimal(count as nat),
{
}

} // verus!
