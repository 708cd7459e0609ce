//! The dialog for the variables of a workspace's `.env` file.

use crate::components::text_input::TextInput;
use crate::text;
use crate::text_order;
use crate::theme::ColorRole;
use vstd::prelude::*;

verus! {

/// How a variable is handed to the sandbox: through the proxy, to some hosts alone, or as it is.
#[derive(Debug)]
pub struct EnvRule {
    pub env_var: String,
    pub proxied: bool,
    pub hosts: Vec<String>,
}

/// The hosts that a well-known variable is meant for.
#[derive(Debug)]
pub struct HostDefaults {
    pub env_var: String,
    pub hosts: Vec<String>,
}

/// A variable in the list.
#[derive(Debug)]
pub struct EnvRow {
    pub env_var: String,
    pub proxied: bool,
    pub hosts_input: TextInput,
}

/// The state of the dialog.
#[derive(Debug)]
pub struct EnvironmentDialog {
    pub workspace_id: i64,
    pub env_rows: Vec<EnvRow>,
    pub search_query: String,
    pub expanded_env: Option<String>,
}

/// How a variable is listed.
#[derive(Debug)]
pub struct EnvRowView {
    pub index: usize,
    pub title: String,
    pub summary: String,
    pub expanded: bool,
    pub icon: &'static str,
    pub is_first: bool,
    pub is_last: bool,
    /// The line below the row.
    pub border: ColorRole,
    /// Whether the hosts are asked for.
    pub asks_hosts: bool,
}

/// What the dialog lists.
#[derive(Debug)]
pub enum EnvList {
    /// Nothing, and why.
    Empty(&'static str),
    Rows(Vec<EnvRowView>),
}

/// The first rule for a variable.
pub open spec fn rule_for(rules: Seq<EnvRule>, env_var: Seq<char>) -> Option<EnvRule>
    decreases rules.len(),
{
    if rules.len() == 0 {
        None
    } else if rules[0].env_var@ == env_var {
        Some(rules[0])
    } else {
        rule_for(rules.drop_first(), env_var)
    }
}

/// The hosts that a variable is meant for, as far as is known.
pub open spec fn hosts_for(defaults: Seq<HostDefaults>, env_var: Seq<char>) -> Seq<Seq<char>>
    decreases defaults.len(),
{
    if defaults.len() == 0 {
        seq![]
    } else if defaults[0].env_var@ == env_var {
        text::views(defaults[0].hosts@)
    } else {
        hosts_for(defaults.drop_first(), env_var)
    }
}

/// The hosts where none were given: those it is meant for, else all.
pub open spec fn fallback_hosts(defaults: Seq<HostDefaults>, env_var: Seq<char>) -> Seq<Seq<char>> {
    let known = hosts_for(defaults, env_var);
    if known.len() == 0 {
        seq!["*"@]
    } else {
        known
    }
}

/// The hosts that a list shows when the dialog opens.
pub open spec fn first_hosts(
    rule: Option<EnvRule>,
    defaults: Seq<HostDefaults>,
    env_var: Seq<char>,
) -> Seq<Seq<char>> {
    match rule {
        Some(r) => if r.hosts@.len() > 0 {
            text::views(r.hosts@)
        } else {
            fallback_hosts(defaults, env_var)
        },
        None => fallback_hosts(defaults, env_var),
    }
}

/// The hosts in a text, with commas or white space between them.
pub open spec fn hosts_in(raw: Seq<char>) -> Seq<Seq<char>> {
    text::fields(raw, |c: char| text::separates(c, true))
}

/// A variable when the dialog opens.
pub open spec fn row_starts(
    row: EnvRow,
    rules: Seq<EnvRule>,
    defaults: Seq<HostDefaults>,
) -> bool {
    let rule = rule_for(rules, row.env_var@);
    &&& row.proxied == (match rule {
        Some(r) => r.proxied,
        None => true,
    })
    &&& row.hosts_input.wf()
    &&& row.hosts_input.content@ == text::joined(
        first_hosts(rule, defaults, row.env_var@),
        ", "@,
    )
    &&& row.hosts_input.start == text::byte_len(row.hosts_input.content@)
    &&& row.hosts_input.end == row.hosts_input.start
    &&& row.hosts_input.is_idle()
    &&& !row.hosts_input.masked
    &&& !row.hosts_input.disabled
    &&& row.hosts_input.placeholder@ == "e.g. api.openai.com, chatgpt.com"@
}

/// The names of the listed variables.
pub open spec fn row_names(rows: Seq<EnvRow>) -> Seq<Seq<char>> {
    rows.map_values(|r: EnvRow| r.env_var@)
}

/// A text in small letters, as far as ASCII goes.
pub open spec fn lowered(s: Seq<char>) -> Seq<char> {
    s.map_values(|c: char| text::ascii_lower(c))
}

/// Whether a variable shows under a search.
pub open spec fn matches_query(name: Seq<char>, query: Seq<char>) -> bool {
    let wanted = lowered(text::trimmed(query));
    wanted.len() == 0 || text::contains_text(lowered(name), wanted)
}

/// The places, below `n`, of the variables that show under a search.
pub open spec fn matching(names: Seq<Seq<char>>, query: Seq<char>, n: int) -> Seq<usize>
    decreases n,
{
    if n <= 0 {
        seq![]
    } else if matches_query(names[n - 1], query) {
        matching(names, query, n - 1).push((n - 1) as usize)
    } else {
        matching(names, query, n - 1)
    }
}

/// What a variable's line says of it.
pub open spec fn summary_of(proxied: bool, hosts: nat) -> Seq<char> {
    if !proxied {
        "Direct env"@
    } else if hosts == 0 {
        "Proxy"@
    } else if hosts == 1 {
        "Proxy \u{00b7} 1 host"@
    } else {
        "Proxy \u{00b7} "@ + text::decimal(hosts) + " hosts"@
    }
}

/// The rule that a variable is saved with, given its row.
pub open spec fn saved_hosts(row: EnvRow, defaults: Seq<HostDefaults>) -> Seq<Seq<char>> {
    let given = hosts_in(row.hosts_input.content@);
    if row.proxied && given.len() == 0 {
        fallback_hosts(defaults, row.env_var@)
    } else {
        given
    }
}

/// The hosts in a text.
pub fn parse_hosts(raw: &str) -> (hosts: Vec<String>)
    ensures
        text::views(hosts@) == hosts_in(raw@),
{
    text::split_fields(raw, true)
}

fn copy_hosts(hosts: &Vec<String>) -> (r: Vec<String>)
    ensures
        text::views(r@) == text::views(hosts@),
{
    let mut r: Vec<String> = Vec::new();
    let mut i: usize = 0;
    while i < hosts.len()
        invariant
            i <= hosts@.len(),
            r@.len() == i,
            forall|j: int| 0 <= j < i ==> (#[trigger] r@[j])@ == hosts@[j]@,
        decreases hosts@.len() - i,
    {
        r.push(hosts[i].clone());
        i += 1;
    }
    assert(text::views(r@) =~= text::views(hosts@));
    r
}

fn fallback(defaults: &Vec<HostDefaults>, env_var: &str) -> (hosts: Vec<String>)
    ensures
        text::views(hosts@) == fallback_hosts(defaults@, env_var@),
{
    let mut i: usize = 0;
    assert(defaults@.skip(0) =~= defaults@);
    while i < defaults.len()
        invariant_except_break
            i <= defaults@.len(),
            hosts_for(defaults@, env_var@) == hosts_for(defaults@.skip(i as int), env_var@),
        ensures
            i <= defaults@.len(),
            i < defaults@.len() ==> hosts_for(defaults@, env_var@) == text::views(
                defaults@[i as int].hosts@,
            ),
            i == defaults@.len() ==> hosts_for(defaults@, env_var@).len() == 0,
        decreases defaults@.len() - i,
    {
        assert(defaults@.skip(i as int).drop_first() =~= defaults@.skip(i + 1));
        if text::same_text(defaults[i].env_var.as_str(), env_var) {
            break;
        }
        i += 1;
    }
    if i < defaults.len() && defaults[i].hosts.len() > 0 {
        copy_hosts(&defaults[i].hosts)
    } else {
        let mut all: Vec<String> = Vec::new();
        all.push("*".to_owned());
        assert(text::views(all@) =~= seq!["*"@]);
        all
    }
}

fn find_rule<'a>(rules: &'a Vec<EnvRule>, env_var: &str) -> (r: Option<&'a EnvRule>)
    ensures
        match r {
            Some(rule) => rule_for(rules@, env_var@) == Some(*rule),
            None => rule_for(rules@, env_var@) is None,
        },
{
    let mut i: usize = 0;
    assert(rules@.skip(0) =~= rules@);
    while i < rules.len()
        invariant
            i <= rules@.len(),
            rule_for(rules@, env_var@) == rule_for(rules@.skip(i as int), env_var@),
        decreases rules@.len() - i,
    {
        assert(rules@.skip(i as int).drop_first() =~= rules@.skip(i + 1));
        if text::same_text(rules[i].env_var.as_str(), env_var) {
            return Some(&rules[i]);
        }
        i += 1;
    }
    None
}

fn make_row(env_var: &str, rules: &Vec<EnvRule>, defaults: &Vec<HostDefaults>) -> (row: EnvRow)
    ensures
        row.env_var@ == env_var@,
        row_starts(row, rules@, defaults@),
{
    let rule = find_rule(rules, env_var);
    let proxied = match rule {
        Some(r) => r.proxied,
        None => true,
    };
    let hosts = match rule {
        Some(r) => if r.hosts.len() > 0 {
            copy_hosts(&r.hosts)
        } else {
            fallback(defaults, env_var)
        },
        None => fallback(defaults, env_var),
    };
    let mut hosts_input = TextInput::new();
    hosts_input.set_placeholder("e.g. api.openai.com, chatgpt.com".to_owned());
    hosts_input.set_value(text::join(&hosts, ", "));
    EnvRow { env_var: env_var.to_owned(), proxied, hosts_input }
}

/// The rows of the variables, in order of their names.
pub fn load_env_rows(
    env_vars: &Vec<String>,
    rules: &Vec<EnvRule>,
    defaults: &Vec<HostDefaults>,
) -> (rows: Vec<EnvRow>)
    ensures
        text_order::ascending(row_names(rows@)),
        forall|s: Seq<char>| #[trigger]
            row_names(rows@).contains(s) <==> text::views(env_vars@).contains(s),
        forall|i: int|
            0 <= i < rows@.len() ==> row_starts(#[trigger] rows@[i], rules@, defaults@),
{
    let names = text_order::sorted_distinct(env_vars);
    let mut rows: Vec<EnvRow> = Vec::new();
    let mut i: usize = 0;
    while i < names.len()
        invariant
            i <= names@.len(),
            rows@.len() == i,
            forall|j: int| 0 <= j < i ==> (#[trigger] rows@[j]).env_var@ == names@[j]@,
            forall|j: int|
                0 <= j < i ==> row_starts(#[trigger] rows@[j], rules@, defaults@),
        decreases names@.len() - i,
    {
        let row = make_row(names[i].as_str(), rules, defaults);
        rows.push(row);
        i += 1;
    }
    assert(row_names(rows@) =~= text::views(names@));
    rows
}

/// The rules that came of saving: one for each row, in order.
pub open spec fn rules_saved(
    rules: Seq<EnvRule>,
    rows: Seq<EnvRow>,
    defaults: Seq<HostDefaults>,
) -> bool {
    &&& rules.len() == rows.len()
    &&& forall|i: int|
        0 <= i < rules.len() ==> {
            &&& (#[trigger] rules[i]).env_var@ == rows[i].env_var@
            &&& rules[i].proxied == rows[i].proxied
            &&& text::views(rules[i].hosts@) == saved_hosts(rows[i], defaults)
        }
}

/// A row after saving: where hosts were filled in, it shows them.
pub open spec fn row_saved(row: EnvRow, before: EnvRow, defaults: Seq<HostDefaults>) -> bool {
    &&& row.env_var == before.env_var
    &&& row.proxied == before.proxied
    &&& if before.proxied && hosts_in(before.hosts_input.content@).len() == 0 {
        TextInput::value_set(
            row.hosts_input,
            before.hosts_input,
            text::joined(fallback_hosts(defaults, before.env_var@), ", "@),
        )
    } else {
        row == before
    }
}

impl EnvironmentDialog {
    /// Each input keeps a sound history.
    pub open spec fn wf(&self) -> bool {
        forall|i: int|
            0 <= i < self.env_rows@.len() ==> (#[trigger] self.env_rows@[i]).hosts_input.wf()
    }

    /// Opens the dialog, with the first variable open.
    pub fn new(workspace_id: i64, env_rows: Vec<EnvRow>) -> (d: Self)
        ensures
            d.workspace_id == workspace_id,
            d.env_rows == env_rows,
            d.search_query@ == Seq::<char>::empty(),
            text::optional_text(d.expanded_env) == (if env_rows@.len() > 0 {
                Some(env_rows@[0].env_var@)
            } else {
                None
            }),
    {
        let expanded_env = if env_rows.len() > 0 {
            Some(env_rows[0].env_var.clone())
        } else {
            None
        };
        EnvironmentDialog { workspace_id, env_rows, search_query: String::new(), expanded_env }
    }

    pub fn set_query(&mut self, query: String)
        ensures
            *final(self) == (EnvironmentDialog { search_query: query, ..*old(self) }),
    {
        self.search_query = query;
    }

    /// The places of the variables that show under the search.
    pub fn filtered_indices(&self) -> (r: Vec<usize>)
        ensures
            r@ == matching(
                row_names(self.env_rows@),
                self.search_query@,
                self.env_rows@.len() as int,
            ),
            forall|i: int| 0 <= i < r@.len() ==> #[trigger] r@[i] < self.env_rows@.len(),
    {
        let trimmed = text::trim(self.search_query.as_str());
        let query = text::lower_ascii(trimmed.as_str());
        let empty = text::to_chars(query.as_str()).len() == 0;
        let ghost names = row_names(self.env_rows@);
        let mut r: Vec<usize> = Vec::new();
        let mut i: usize = 0;
        while i < self.env_rows.len()
            invariant
                i <= self.env_rows@.len(),
                names == row_names(self.env_rows@),
                query@ == lowered(text::trimmed(self.search_query@)),
                empty == (query@.len() == 0),
                r@ == matching(names, self.search_query@, i as int),
                forall|j: int| 0 <= j < r@.len() ==> #[trigger] r@[j] < self.env_rows@.len(),
            decreases self.env_rows@.len() - i,
        {
            assert(names[i as int] == self.env_rows@[i as int].env_var@);
            let name = text::lower_ascii(self.env_rows[i].env_var.as_str());
            if empty || text::contains(name.as_str(), query.as_str()) {
                r.push(i);
            }
            i += 1;
        }
        r
    }

    fn is_expanded(&self, env_var: &str) -> (r: bool)
        ensures
            r == (text::optional_text(self.expanded_env) == Some(env_var@)),
    {
        match &self.expanded_env {
            Some(e) => text::same_text(e.as_str(), env_var),
            None => false,
        }
    }

    /// Opens a variable, or closes it where it is the open one.
    pub fn toggle_row_expanded(&mut self, env_var: &str)
        ensures
            text::optional_text(final(self).expanded_env) == (if text::optional_text(
                old(self).expanded_env,
            ) == Some(env_var@) {
                None
            } else {
                Some(env_var@)
            }),
            *final(self) == (EnvironmentDialog {
                expanded_env: final(self).expanded_env,
                ..*old(self)
            }),
    {
        if self.is_expanded(env_var) {
            self.expanded_env = None;
        } else {
            self.expanded_env = Some(env_var.to_owned());
        }
    }

    /// Hands a variable over the other way.
    pub fn toggle_env_proxy(&mut self, index: usize)
        ensures
            final(self).env_rows@ == (if index < old(self).env_rows@.len() {
                old(self).env_rows@.update(
                    index as int,
                    EnvRow {
                        proxied: !old(self).env_rows@[index as int].proxied,
                        ..old(self).env_rows@[index as int]
                    },
                )
            } else {
                old(self).env_rows@
            }),
            *final(self) == (EnvironmentDialog { env_rows: final(self).env_rows, ..*old(self) }),
    {
        if index < self.env_rows.len() {
            let now = !self.env_rows[index].proxied;
            self.env_rows[index].proxied = now;
        }
    }

    /// Takes one of the two ways to hand a variable over.
    pub fn choose_mode(&mut self, index: usize, proxied: bool)
        requires
            index < old(self).env_rows@.len(),
        ensures
            final(self).env_rows@ == old(self).env_rows@.update(
                index as int,
                EnvRow { proxied, ..old(self).env_rows@[index as int] },
            ),
            *final(self) == (EnvironmentDialog { env_rows: final(self).env_rows, ..*old(self) }),
    {
        if self.env_rows[index].proxied != proxied {
            self.toggle_env_proxy(index);
        }
        assert(self.env_rows@ =~= old(self).env_rows@.update(
            index as int,
            EnvRow { proxied, ..old(self).env_rows@[index as int] },
        ));
    }

    /// The rules to store. A variable that goes through the proxy without hosts gets those it is
    /// meant for, else all, and shows them.
    pub fn save_environment(&mut self, defaults: &Vec<HostDefaults>) -> (rules: Vec<EnvRule>)
        requires
            old(self).wf(),
        ensures
            final(self).wf(),
            rules_saved(rules@, old(self).env_rows@, defaults@),
            final(self).env_rows@.len() == old(self).env_rows@.len(),
            forall|i: int|
                0 <= i < final(self).env_rows@.len() ==> row_saved(
                    #[trigger] final(self).env_rows@[i],
                    old(self).env_rows@[i],
                    defaults@,
                ),
            *final(self) == (EnvironmentDialog { env_rows: final(self).env_rows, ..*old(self) }),
    {
        let mut rules: Vec<EnvRule> = Vec::new();
        let mut i: usize = 0;
        let ghost before = self.env_rows@;
        while i < self.env_rows.len()
            invariant
                i <= self.env_rows@.len(),
                self.wf(),
                before == old(self).env_rows@,
                self.env_rows@.len() == before.len(),
                rules@.len() == i,
                forall|j: int| i <= j < before.len() ==> #[trigger] self.env_rows@[j] == before[j],
                forall|j: int|
                    0 <= j < i ==> row_saved(#[trigger] self.env_rows@[j], before[j], defaults@),
                forall|j: int|
                    0 <= j < i ==> {
                        &&& (#[trigger] rules@[j]).env_var@ == before[j].env_var@
                        &&& rules@[j].proxied == before[j].proxied
                        &&& text::views(rules@[j].hosts@) == saved_hosts(before[j], defaults@)
                    },
                *self == (EnvironmentDialog { env_rows: self.env_rows, ..*old(self) }),
            decreases self.env_rows@.len() - i,
        {
            let ghost so_far = self.env_rows@;
            let mut hosts = parse_hosts(self.env_rows[i].hosts_input.value());
            assert(hosts@.len() == text::views(hosts@).len());
            if self.env_rows[i].proxied && hosts.len() == 0 {
                hosts = fallback(defaults, self.env_rows[i].env_var.as_str());
                let shown = text::join(&hosts, ", ");
                self.env_rows[i].hosts_input.set_value(shown);
            }
            assert(forall|j: int|
                0 <= j < so_far.len() && j != i ==> #[trigger] self.env_rows@[j] == so_far[j]);
            rules.push(
                EnvRule {
                    env_var: self.env_rows[i].env_var.clone(),
                    proxied: self.env_rows[i].proxied,
                    hosts,
                },
            );
            i += 1;
        }
        rules
    }

    /// How the variables are listed under the search.
    pub fn rows_view(&self) -> (list: EnvList)
        ensures
            ({
                let shown = matching(
                    row_names(self.env_rows@),
                    self.search_query@,
                    self.env_rows@.len() as int,
                );
                match list {
                    EnvList::Empty(why) => if self.env_rows@.len() == 0 {
                        why@ == "No root .env file found for this workspace"@
                    } else {
                        shown.len() == 0 && why@ == "No environment variables match your search."@
                    },
                    EnvList::Rows(views) => {
                        &&& shown.len() > 0
                        &&& views@.len() == shown.len()
                        &&& forall|i: int|
                            0 <= i < views@.len() ==> row_view_is(
                                #[trigger] views@[i],
                                self.env_rows@[shown[i] as int],
                                self.expanded_env,
                                shown[i],
                                i == 0,
                                i + 1 == shown.len(),
                            )
                    },
                }
            }),
    {
        if self.env_rows.len() == 0 {
            return EnvList::Empty("No root .env file found for this workspace");
        }
        let shown = self.filtered_indices();
        if shown.len() == 0 {
            return EnvList::Empty("No environment variables match your search.");
        }
        let mut views: Vec<EnvRowView> = Vec::new();
        let mut i: usize = 0;
        while i < shown.len()
            invariant
                i <= shown@.len(),
                views@.len() == i,
                forall|j: int| 0 <= j < shown@.len() ==> #[trigger] shown@[j] < self.env_rows@.len(),
                forall|j: int|
                    0 <= j < i ==> row_view_is(
                        #[trigger] views@[j],
                        self.env_rows@[shown@[j] as int],
                        self.expanded_env,
                        shown@[j],
                        j == 0,
                        j + 1 == shown@.len(),
                    ),
            decreases shown@.len() - i,
        {
            let v = self.row_view(shown[i], i == 0, i + 1 == shown.len());
            views.push(v);
            i += 1;
        }
        EnvList::Rows(views)
    }

    /// How a variable is listed.
    pub fn row_view(&self, index: usize, is_first: bool, is_last: bool) -> (v: EnvRowView)
        requires
            index < self.env_rows@.len(),
        ensures
            row_view_is(
                v,
                self.env_rows@[index as int],
                self.expanded_env,
                index,
                is_first,
                is_last,
            ),
    {
        let row = &self.env_rows[index];
        let expanded = self.is_expanded(row.env_var.as_str());
        let hosts = parse_hosts(row.hosts_input.value());
        assert(hosts@.len() == text::views(hosts@).len());
        let count: usize = hosts.len();
        let summary = if !row.proxied {
            "Direct env".to_owned()
        } else if count == 0 {
            "Proxy".to_owned()
        } else if count == 1 {
            "Proxy \u{00b7} 1 host".to_owned()
        } else {
            let mut s = "Proxy \u{00b7} ".to_owned();
            text::push_decimal(&mut s, count as u64);
            s.append(" hosts");
            s
        };
        EnvRowView {
            index,
            title: row.env_var.clone(),
            summary,
            expanded,
            icon: if expanded {
                "icons/files/chevron-down.svg"
            } else {
                "icons/files/chevron-right.svg"
            },
            is_first,
            is_last,
            border: if is_last {
                ColorRole::Transparent
            } else {
                ColorRole::BorderSubtle
            },
            asks_hosts: expanded && row.proxied,
        }
    }
}

/// How a variable is listed, given its row, which one is open, and its place.
pub open spec fn row_view_is(
    v: EnvRowView,
    row: EnvRow,
    expanded_env: Option<String>,
    index: usize,
    is_first: bool,
    is_last: bool,
) -> bool {
    &&& v.index == index
    &&& v.title@ == row.env_var@
    &&& v.summary@ == summary_of(row.proxied, hosts_in(row.hosts_input.content@).len())
    &&& v.expanded == (text::optional_text(expanded_env) == Some(row.env_var@))
    &&& v.icon@ == (if v.expanded {
        "icons/files/chevron-down.svg"@
    } else {
        "icons/files/chevron-right.svg"@
    })
    &&& v.is_first == is_first
    &&& v.is_last == is_last
    &&& v.border == (if is_last {
        ColorRole::Transparent
    } else {
        ColorRole::BorderSubtle
    })
    &&& v.asks_hosts == (v.expanded && row.proxied)
}

/// A variable that goes through the proxy is never saved without a host.
pub proof fn law_proxied_has_hosts(row: EnvRow, defaults: Seq<HostDefaults>)
    requires
        row.proxied,
    ensures
        saved_hosts(row, defaults).len() > 0,
{
}

/// A place shows under a search exactly where its variable matches.
pub proof fn law_search_finds_all(names: Seq<Seq<char>>, query: Seq<char>, n: int, k: int)
    requires
        0 <= k < n <= names.len() <= usize::MAX,
    ensures
        matching(names, query, n).contains(k as usize) <==> matches_query(names[k], query),
    decreases n,
{
    let all = matching(names, query, n);
    let rest = matching(names, query, n - 1);
    lemma_matching_below(names, query, n - 1);
    if matches_query(names[n - 1], query) {
        assert(all =~= rest.push((n - 1) as usize));
        assert(all[rest.len() as int] == (n - 1) as usize);
    }
    if k < n - 1 {
        law_search_finds_all(names, query, n - 1, k);
        if rest.contains(k as usize) {
            let i = choose|i: int| 0 <= i < rest.len() && rest[i] == k as usize;
            assert(all[i] == k as usize);
        }
        if all.contains(k as usize) {
            let i = choose|i: int| 0 <= i < all.len() && all[i] == k as usize;
            assert(i < rest.len());
            assert(rest[i] == k as usize);
        }
    } else {
        if all.contains(k as usize) && !matches_query(names[k], query) {
            let i = choose|i: int| 0 <= i < all.len() && all[i] == k as usize;
            assert(rest[i] < n - 1);
        }
    }
}

proof fn lemma_matching_below(names: Seq<Seq<char>>, query: Seq<char>, n: int)
    requires
        n <= names.len() <= usize::MAX,
    ensures
        forall|i: int|
            0 <= i < matching(names, query, n).len() ==> #[trigger] matching(names, query, n)[i]
                < n,
    decreases n,
{
    if n > 0 {
        lemma_matching_below(names, query, n - 1);
        let all = matching(names, query, n);
        let rest = matching(names, query, n - 1);
        assert forall|i: int| 0 <= i < all.len() implies #[trigger] all[i] < n by {
            if i < rest.len() {
                assert(all[i] == rest[i]);
            }
        }
    }
}

/// The rule of a variable is the first that names it.
pub proof fn law_first_rule_counts(rules: Seq<EnvRule>, env_var: Seq<char>, i: int)
    requires
        0 <= i < rules.len(),
        forall|j: int| 0 <= j < i ==> (#[trigger] rules[j]).env_var@ != env_var,
    ensures
        rules[i].env_var@ == env_var ==> rule_for(rules, env_var) == Some(rules[i]),
        rules[i].env_var@ != env_var && i + 1 == rules.len() ==> rule_for(rules, env_var) is None,
    decreases rules.len(),
{
    reveal_with_fuel(rule_for, 2);
    if i > 0 {
        assert(rules[0].env_var@ != env_var);
        let rest = rules.drop_first();
        assert(rest[i - 1] == rules[i]);
        assert forall|j: int| 0 <= j < i - 1 implies (#[trigger] rest[j]).env_var@ != env_var by {
            assert(rest[j] == rules[j + 1]);
        }
        law_first_rule_counts(rest, env_var, i - 1);
    }
}

/// The hosts that a variable is known for are those of the first entry that names it.
pub proof fn law_first_hosts_count(defaults: Seq<HostDefaults>, env_var: Seq<char>, i: int)
    requires
        0 <= i < defaults.len(),
        forall|j: int| 0 <= j < i ==> (#[trigger] defaults[j]).env_var@ != env_var,
    ensures
        defaults[i].env_var@ == env_var ==> hosts_for(defaults, env_var) == text::views(
            defaults[i].hosts@,
        ),
        defaults[i].env_var@ != env_var && i + 1 == defaults.len() ==> hosts_for(
            defaults,
            env_var,
        ).len() == 0,
    decreases defaults.len(),
{
    reveal_with_fuel(hosts_for, 2);
    if i > 0 {
        assert(defaults[0].env_var@ != env_var);
        let rest = defaults.drop_first();
        assert(rest[i - 1] == defaults[i]);
        assert forall|j: int| 0 <= j < i - 1 implies (#[trigger] rest[j]).env_var@ != env_var by {
            assert(rest[j] == defaults[j + 1]);
        }
        law_first_hosts_count(rest, env_var, i - 1);
    }
}

/// A host in a list: it is not empty and holds neither white space nor a comma.
pub open spec fn is_host(host: Seq<char>) -> bool {
    host.len() > 0 && forall|i: int|
        0 <= i < host.len() ==> !text::is_space(#[trigger] host[i]) && host[i] != ','
}

/// Hosts that are shown in the input are read from it as they were, in their order.
pub proof fn law_hosts_read_back(hosts: Seq<Seq<char>>)
    requires
        forall|k: int| 0 <= k < hosts.len() ==> is_host(#[trigger] hosts[k]),
    ensures
        hosts_in(text::joined(hosts, ", "@)) == hosts,
    decreases hosts.len(),
{
    let sep = |c: char| text::separates(c, true);
    reveal_strlit(", ");
    if hosts.len() == 0 {
        assert(hosts_in(text::joined(hosts, ", "@)) =~= hosts);
    } else {
        let last = hosts.last();
        assert(is_host(hosts[hosts.len() - 1]));
        assert forall|i: int| 0 <= i < last.len() implies !sep(#[trigger] last[i]) by {}
        text::law_whole_text_is_a_field(last, sep);
        if hosts.len() == 1 {
            assert(hosts =~= seq![last]);
        } else {
            let rest = hosts.drop_last();
            assert forall|k: int| 0 <= k < rest.len() implies is_host(#[trigger] rest[k]) by {
                assert(rest[k] == hosts[k]);
            }
            law_hosts_read_back(rest);
            let before = text::joined(rest, ", "@);
            let none = Seq::<char>::empty();
            let tail = none.push(' ') + last;
            assert(", "@ =~= none.push(',').push(' '));
            assert(text::joined(hosts, ", "@) =~= before.push(',') + tail);
            text::law_fields_part_at_separators(before, ',', tail, sep);
            text::law_fields_part_at_separators(none, ' ', last, sep);
            assert(text::fields(none, sep) =~= Seq::<Seq<char>>::empty());
            assert(text::fields(last, sep) == seq![last]);
            assert(text::fields(tail, sep) =~= seq![last]);
            assert(text::fields(before, sep) == rest);
            assert(rest + seq![last] =~= hosts);
            assert(hosts_in(text::joined(hosts, ", "@)) == rest + seq![last]);
        }
    }
}

/// Hosts that were given are saved as they were, and the known ones only where none were given and
/// the variable goes through the proxy; where nothing is known either, any host counts.
pub proof fn law_given_hosts_are_saved(row: EnvRow, defaults: Seq<HostDefaults>)
    ensures
        hosts_in(row.hosts_input.content@).len() > 0 ==> saved_hosts(row, defaults) == hosts_in(
            row.hosts_input.content@,
        ),
        !row.proxied ==> saved_hosts(row, defaults) == hosts_in(row.hosts_input.content@),
        row.proxied && hosts_in(row.hosts_input.content@).len() == 0 && hosts_for(
            defaults,
            row.env_var@,
        ).len() > 0 ==> saved_hosts(row, defaults) == hosts_for(defaults, row.env_var@),
        row.proxied && hosts_in(row.hosts_input.content@).len() == 0 && hosts_for(
            defaults,
            row.env_var@,
        ).len() == 0 ==> saved_hosts(row, defaults) == seq!["*"@],
{
}

/// What the dialog opens with is what was saved: a rule with hosts shows them, whatever is known of
/// the variable, and there is always one to show.
pub proof fn law_opens_with_what_was_saved(
    rule: Option<EnvRule>,
    defaults: Seq<HostDefaults>,
    env_var: Seq<char>,
)
    ensures
        first_hosts(rule, defaults, env_var).len() > 0,
        rule matches Some(r) ==> (r.hosts@.len() > 0 ==> first_hosts(rule, defaults, env_var)
            == text::views(r.hosts@)),
        rule is None && hosts_for(defaults, env_var).len() > 0 ==> first_hosts(
            rule,
            defaults,
            env_var,
        ) == hosts_for(defaults, env_var),
{
}

/// A search takes no notice of capitals nor of white space around it. Without a query all variables
/// show, and with one those in whose name it stands anywhere.
pub proof fn law_search_ignores_case(name: Seq<char>, query: Seq<char>, i: int)
    ensures
        matches_query(lowered(name), query) == matches_query(name, query),
        matches_query(name, text::trimmed(query)) == matches_query(name, query),
        text::trimmed(query).len() == 0 ==> matches_query(name, query),
        ({
            let wanted = text::trimmed(query);
            0 <= i && i + wanted.len() <= name.len() && name.subrange(i, i + wanted.len())
                == wanted ==> matches_query(name, query)
        }),
{
    text::law_trimmed(query);
    assert forall|c: char| text::ascii_lower(text::ascii_lower(c)) == #[trigger] text::ascii_lower(
        c,
    ) by {
        text::law_small_letters(c);
    }
    assert(lowered(lowered(name)) =~= lowered(name));
    let wanted = text::trimmed(query);
    if 0 <= i && i + wanted.len() <= name.len() && name.subrange(i, i + wanted.len()) == wanted {
        let low = lowered(name);
        assert(low.subrange(i, i + wanted.len()) =~= lowered(wanted)) by {
            assert forall|k: int| 0 <= k < wanted.len() implies low.subrange(
                i,
                i + wanted.len(),
            )[k] == lowered(wanted)[k] by {
                assert(name.subrange(i, i + wanted.len())[k] == wanted[k]);
            }
        }
        assert(text::occurs_at(low, lowered(wanted), i));
    }
}

/// What is said of a variable tells how it is handed over: nothing of hosts where it goes directly,
/// and else how many there are, told apart for any two numbers.
pub proof fn law_summary_tells_the_hosts(m: nat, n: nat)
    ensures
        summary_of(false, m) == summary_of(false, n),
        summary_of(true, 0) == "Proxy"@,
        n >= 2 ==> summary_of(true, n) == "Proxy \u{00b7} "@ + text::decimal(n) + " hosts"@,
        m >= 2 && n >= 2 && summary_of(true, m) == summary_of(true, n) ==> m == n,
        summary_of(true, 1) == "Proxy \u{00b7} 1 host"@,
{
    if m >= 2 && n >= 2 && summary_of(true, m) == summary_of(true, n) {
        let head = "Proxy \u{00b7} "@;
        let tail = " hosts"@;
        let a = summary_of(true, m);
        let b = summary_of(true, n);
        assert(a.len() == head.len() + text::decimal(m).len() + tail.len());
        assert(a.subrange(head.len() as int, a.len() - tail.len()) =~= text::decimal(m));
        assert(b.subrange(head.len() as int, b.len() - tail.len()) =~= text::decimal(n));
        text::law_decimal_makes_up_the_number(m);
        text::law_decimal_makes_up_the_number(n);
    }
}

/// Exactly the variable that is open asks for hosts, and only where it goes through the proxy. Its
/// line is told from the closed ones, and every line but the last has a border.
pub proof fn law_open_variable_asks_for_hosts(
    v: EnvRowView,
    row: EnvRow,
    expanded_env: Option<String>,
    index: usize,
    is_first: bool,
    is_last: bool,
)
    requires
        row_view_is(v, row, expanded_env, index, is_first, is_last),
    ensures
        v.expanded <==> (expanded_env is Some && expanded_env->0@ == row.env_var@),
        v.asks_hosts <==> v.expanded && row.proxied,
        v.icon@ == "icons/files/chevron-down.svg"@ <==> v.expanded,
        v.border == ColorRole::Transparent <==> is_last,
        v.title@ == row.env_var@,
        v.index == index,
        !row.proxied ==> v.summary@ == "Direct env"@,
{
    reveal_strlit("icons/files/chevron-down.svg");
    reveal_strlit("icons/files/chevron-right.svg");
    assert("icons/files/chevron-down.svg"@.len() == 28);
    assert("icons/files/chevron-right.svg"@.len() == 29);
}

/// After saving, every row shows what was saved of it: its hosts read from the input are those of
/// its rule, where those that are filled in are hosts.
pub proof fn law_row_shows_what_was_saved(
    row: EnvRow,
    before: EnvRow,
    defaults: Seq<HostDefaults>,
)
    requires
        row_saved(row, before, defaults),
        forall|k: int|
            0 <= k < fallback_hosts(defaults, before.env_var@).len() ==> is_host(
                #[trigger] fallback_hosts(defaults, before.env_var@)[k],
            ),
    ensures
        hosts_in(row.hosts_input.content@) == saved_hosts(before, defaults),
        row.env_var == before.env_var,
        row.proxied == before.proxied,
        saved_hosts(row, defaults) == saved_hosts(before, defaults),
{
    law_hosts_read_back(fallback_hosts(defaults, before.env_var@));
    lemma_proxied_or_given(row, defaults);
}

proof fn lemma_proxied_or_given(row: EnvRow, defaults: Seq<HostDefaults>)
    ensures
        hosts_in(row.hosts_input.content@).len() > 0 ==> saved_hosts(row, defaults) == hosts_in(
            row.hosts_input.content@,
        ),
        row.proxied ==> saved_hosts(row, defaults).len() > 0,
{
    if row.proxied {
        law_proxied_has_hosts(row, defaults);
    }
}

/// What a variable is opened with is what its rule says: handed over as the rule has it, through
/// the proxy where there is no rule, and with its hosts in the input.
pub proof fn law_variable_opens_by_its_rule(
    row: EnvRow,
    rules: Seq<EnvRule>,
    defaults: Seq<HostDefaults>,
    i: int,
)
    requires
        row_starts(row, rules, defaults),
        0 <= i < rules.len(),
        forall|j: int| 0 <= j < i ==> (#[trigger] rules[j]).env_var@ != row.env_var@,
    ensures
        rules[i].env_var@ == row.env_var@ ==> row.proxied == rules[i].proxied,
        rules[i].env_var@ == row.env_var@ && rules[i].hosts@.len() > 0 && (forall|k: int|
            0 <= k < rules[i].hosts@.len() ==> is_host((#[trigger] rules[i].hosts@[k])@))
            ==> hosts_in(row.hosts_input.content@) == text::views(rules[i].hosts@),
        rules[i].env_var@ != row.env_var@ && i + 1 == rules.len() ==> row.proxied,
{
    law_first_rule_counts(rules, row.env_var@, i);
    if rules[i].env_var@ == row.env_var@ && rules[i].hosts@.len() > 0 && (forall|k: int|
        0 <= k < rules[i].hosts@.len() ==> is_host((#[trigger] rules[i].hosts@[k])@)) {
        let hosts = text::views(rules[i].hosts@);
        assert forall|k: int| 0 <= k < hosts.len() implies is_host(#[trigger] hosts[k]) by {
            assert(is_host(rules[i].hosts@[k]@));
        }
        law_hosts_read_back(hosts);
    }
}

} // verus!
