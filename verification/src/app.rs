//! The state of the screen: what is shown, which flow is selected, and what the keys do.

use vstd::prelude::*;
use std::collections::HashMap;
use crate::addr::{IpAddress, SocketAddress};
use crate::network::monitor::connection_views;
use crate::network::types::{Connection, ConnectionView};
use crate::network::Process;
use crate::text::{decimal_text, from_chars, push_decimal, push_str};

verus! {

broadcast use vstd::std_specs::hash::group_hash_axioms;

/// What a key asks the program to do.
#[derive(Debug, Clone, Copy, PartialEq, Eq, Structural)]
pub enum Action {
    Quit,
    Refresh,
}

/// What the screen shows.
#[derive(Debug, Clone, Copy, PartialEq, Eq, Structural)]
pub enum ViewMode {
    Overview,
    ConnectionDetails,
    ProcessDetails,
    Help,
}

/// The keys that the program tells apart.
#[derive(Debug, Clone, Copy, PartialEq, Eq, Structural)]
pub enum KeyCode {
    Char(char),
    Up,
    Down,
    Enter,
    Esc,
    Other,
}

/// One key press: the key, and whether the control key was held.
#[derive(Debug, Clone, Copy, PartialEq, Eq, Structural)]
pub struct Key {
    pub code: KeyCode,
    pub control: bool,
}

/// A host name that was found for an address.
#[derive(Debug)]
pub struct HostName {
    pub ip: IpAddress,
    pub name: String,
}

/// A `HostName` as a value.
pub struct HostNameView {
    pub ip: IpAddress,
    pub name: Seq<char>,
}

impl View for HostName {
    type V = HostNameView;

    open spec fn view(&self) -> HostNameView {
        HostNameView { ip: self.ip, name: self.name@ }
    }
}

/// The host names of `v` as values, in the same order.
pub open spec fn host_views(v: Seq<HostName>) -> Seq<HostNameView> {
    Seq::new(v.len(), |i: int| v[i]@)
}

/// The name that the first of the host names for the address `ip` gives.
pub open spec fn cached_name(names: Seq<HostNameView>, ip: IpAddress) -> Option<Seq<char>>
    decreases names.len(),
{
    if names.len() == 0 {
        None
    } else if names[0].ip == ip {
        Some(names[0].name)
    } else {
        cached_name(names.drop_first(), ip)
    }
}

/// The place of the first of the connections that is of the flow of `selected`.
pub open spec fn index_of_flow(connections: Seq<ConnectionView>, selected: ConnectionView) -> Option<
    int,
>
    decreases connections.len(),
{
    if connections.len() == 0 {
        None
    } else if connections[0].flow() == selected.flow() {
        Some(0)
    } else {
        match index_of_flow(connections.drop_first(), selected) {
            Some(i) => Some(i + 1),
            None => None,
        }
    }
}

/// The state of the screen.
#[derive(Debug)]
pub struct App {
    pub mode: ViewMode,
    /// The flows that are shown, in their order.
    pub connections: Vec<Connection>,
    /// The processes that were looked up, by their numbers.
    pub processes: HashMap<u32, Process>,
    pub selected_connection: Option<Connection>,
    pub selected_connection_idx: usize,
    pub show_locations: bool,
    pub show_hostnames: bool,
    /// The host names that were found, the latest last.
    pub dns_cache: Vec<HostName>,
}

/// The state of the screen as a value.
pub struct AppView {
    pub mode: ViewMode,
    pub connections: Seq<ConnectionView>,
    pub processes: Map<u32, Process>,
    pub selected_connection: Option<ConnectionView>,
    pub selected_connection_idx: usize,
    pub show_locations: bool,
    pub show_hostnames: bool,
    pub dns_cache: Seq<HostNameView>,
}

/// The value of an optional connection.
pub open spec fn opt_connection_view(o: Option<Connection>) -> Option<ConnectionView> {
    match o {
        Some(c) => Some(c@),
        None => None,
    }
}

impl View for App {
    type V = AppView;

    open spec fn view(&self) -> AppView {
        AppView {
            mode: self.mode,
            connections: connection_views(self.connections@),
            processes: self.processes@,
            selected_connection: opt_connection_view(self.selected_connection),
            selected_connection_idx: self.selected_connection_idx,
            show_locations: self.show_locations,
            show_hostnames: self.show_hostnames,
            dns_cache: host_views(self.dns_cache@),
        }
    }
}

impl AppView {
    /// The screen with the connection at place `i` selected.
    pub open spec fn selecting(self, i: int) -> AppView {
        AppView {
            selected_connection: Some(self.connections[i]),
            selected_connection_idx: i as usize,
            ..self
        }
    }

    /// The place to which the selection moves down: the next, and from the last to the
    /// first.
    pub open spec fn place_below(self) -> int {
        (self.selected_connection_idx + 1) % (self.connections.len() as int)
    }

    /// The place to which the selection moves up: the one before, and from the first to
    /// the last. A place behind the last connection counts as the last.
    pub open spec fn place_above(self) -> int {
        if self.selected_connection_idx == 0 || self.selected_connection_idx
            > self.connections.len() {
            self.connections.len() - 1
        } else {
            self.selected_connection_idx - 1
        }
    }

    /// The screen after a key was pressed while it showed the overview.
    pub open spec fn after_overview_key(self, key: Key) -> (AppView, Option<Action>) {
        match key.code {
            KeyCode::Char(c) => if c == 'q' {
                (self, Some(Action::Quit))
            } else if c == 'c' && key.control {
                (self, Some(Action::Quit))
            } else if c == 'r' {
                (self, Some(Action::Refresh))
            } else if c == 'h' {
                (AppView { mode: ViewMode::Help, ..self }, None)
            } else if c == 'l' {
                (AppView { show_locations: !self.show_locations, ..self }, None)
            } else if c == 'd' {
                (
                    AppView {
                        show_hostnames: !self.show_hostnames,
                        dns_cache: if self.show_hostnames {
                            Seq::empty()
                        } else {
                            self.dns_cache
                        },
                        ..self
                    },
                    None,
                )
            } else {
                (self, None)
            },
            KeyCode::Down => if self.connections.len() > 0 {
                (self.selecting(self.place_below()), None)
            } else {
                (self, None)
            },
            KeyCode::Up => if self.connections.len() > 0 {
                (self.selecting(self.place_above()), None)
            } else {
                (self, None)
            },
            KeyCode::Enter => if self.connections.len() > 0 {
                (AppView { mode: ViewMode::ConnectionDetails, ..self }, None)
            } else {
                (self, None)
            },
            _ => (self, None),
        }
    }

    /// The screen after a key was pressed while it showed one connection.
    pub open spec fn after_details_key(self, key: Key) -> (AppView, Option<Action>) {
        match key.code {
            KeyCode::Esc => (AppView { mode: ViewMode::Overview, ..self }, None),
            KeyCode::Char(c) => if c == 'q' {
                (AppView { mode: ViewMode::Overview, ..self }, None)
            } else if c == 'p' {
                (AppView { mode: ViewMode::ProcessDetails, ..self }, None)
            } else {
                (self, None)
            },
            _ => (self, None),
        }
    }

    /// The screen after a key was pressed while it showed one process.
    pub open spec fn after_process_key(self, key: Key) -> (AppView, Option<Action>) {
        match key.code {
            KeyCode::Esc => (AppView { mode: ViewMode::ConnectionDetails, ..self }, None),
            KeyCode::Char(c) => if c == 'q' {
                (AppView { mode: ViewMode::ConnectionDetails, ..self }, None)
            } else {
                (self, None)
            },
            _ => (self, None),
        }
    }

    /// The screen after a key was pressed while it showed the help.
    pub open spec fn after_help_key(self, key: Key) -> (AppView, Option<Action>) {
        match key.code {
            KeyCode::Esc => (AppView { mode: ViewMode::Overview, ..self }, None),
            KeyCode::Char(c) => if c == 'q' || c == 'h' {
                (AppView { mode: ViewMode::Overview, ..self }, None)
            } else {
                (self, None)
            },
            _ => (self, None),
        }
    }

    /// The screen after a key was pressed, and what the key asks for.
    pub open spec fn after_key(self, key: Key) -> (AppView, Option<Action>) {
        match self.mode {
            ViewMode::Overview => self.after_overview_key(key),
            ViewMode::ConnectionDetails => self.after_details_key(key),
            ViewMode::ProcessDetails => self.after_process_key(key),
            ViewMode::Help => self.after_help_key(key),
        }
    }

    /// The screen with the list `connections` in place of the old one, where a
    /// connection was selected: the connection of the same flow stays selected at its new
    /// place; where there is none, the first connection is selected, or nothing where the
    /// list is empty.
    pub open spec fn reselected(self, connections: Seq<ConnectionView>) -> AppView {
        let shown = AppView { connections, ..self };
        match self.selected_connection {
            Some(selected) => match index_of_flow(connections, selected) {
                Some(i) => shown.selecting(i),
                None => if connections.len() > 0 {
                    shown.selecting(0)
                } else {
                    AppView { selected_connection: None, selected_connection_idx: 0, ..shown }
                },
            },
            None => shown,
        }
    }

    /// The screen after a tick that brought the list `connections`: as after a refresh,
    /// and where nothing was selected, the first connection is.
    pub open spec fn ticked(self, connections: Seq<ConnectionView>) -> AppView {
        if self.selected_connection is None && connections.len() > 0 {
            (AppView { connections, ..self }).selecting(0)
        } else {
            self.reselected(connections)
        }
    }

    /// An address as it is shown. With host names switched on: the name that was found
    /// for the address, else `localhost` for a loopback address, else `*` for the
    /// unspecified address, each with the port behind a colon. In any other case the
    /// address as it is written.
    pub open spec fn shown_addr(self, addr: SocketAddress) -> Seq<char> {
        if self.show_hostnames {
            match cached_name(self.dns_cache, addr.ip) {
                Some(name) => name + seq![':'] + decimal_text(addr.port as nat),
                None => if addr.ip.is_loopback() {
                    "localhost:"@ + decimal_text(addr.port as nat)
                } else if addr.ip.is_unspecified() {
                    "*:"@ + decimal_text(addr.port as nat)
                } else {
                    addr.text()
                },
            }
        } else {
            addr.text()
        }
    }
}

impl App {
    /// A screen that shows the overview of no connections.
    pub fn new() -> (r: Self)
        ensures
            r@ == (AppView {
                mode: ViewMode::Overview,
                connections: Seq::empty(),
                processes: Map::empty(),
                selected_connection: None,
                selected_connection_idx: 0,
                show_locations: true,
                show_hostnames: false,
                dns_cache: Seq::empty(),
            }),
    {
        let r = Self {
            mode: ViewMode::Overview,
            connections: Vec::new(),
            processes: HashMap::new(),
            selected_connection: None,
            selected_connection_idx: 0,
            show_locations: true,
            show_hostnames: false,
            dns_cache: Vec::new(),
        };
        assert(r@.connections =~= Seq::empty());
        assert(r@.dns_cache =~= Seq::empty());
        r
    }

    /// Takes a key press, and says what the key asks for.
    pub fn handle_key(&mut self, key: Key) -> (r: Option<Action>)
        ensures
            (final(self)@, r) == old(self)@.after_key(key),
    {
        match self.mode {
            ViewMode::Overview => self.handle_overview_keys(key),
            ViewMode::ConnectionDetails => self.handle_details_keys(key),
            ViewMode::ProcessDetails => self.handle_process_keys(key),
            ViewMode::Help => self.handle_help_keys(key),
        }
    }

    fn select(&mut self, i: usize)
        requires
            i < old(self).connections@.len(),
        ensures
            final(self)@ == old(self)@.selecting(i as int),
    {
        self.selected_connection = Some(self.connections[i].clone());
        self.selected_connection_idx = i;
    }

    /// Takes a key press while the overview is shown.
    pub fn handle_overview_keys(&mut self, key: Key) -> (r: Option<Action>)
        ensures
            (final(self)@, r) == old(self)@.after_overview_key(key),
    {
        match key.code {
            KeyCode::Char(c) => {
                if c == 'q' {
                    Some(Action::Quit)
                } else if c == 'c' && key.control {
                    Some(Action::Quit)
                } else if c == 'r' {
                    Some(Action::Refresh)
                } else if c == 'h' {
                    self.mode = ViewMode::Help;
                    None
                } else if c == 'l' {
                    self.show_locations = !self.show_locations;
                    None
                } else if c == 'd' {
                    self.show_hostnames = !self.show_hostnames;
                    if !self.show_hostnames {
                        self.dns_cache = Vec::new();
                        assert(host_views(self.dns_cache@) =~= Seq::empty());
                    }
                    None
                } else {
                    None
                }
            },
            KeyCode::Down => {
                if self.connections.len() > 0 {
                    let len = self.connections.len();
                    let next: usize = ((self.selected_connection_idx as u128 + 1) % (
                    len as u128)) as usize;
                    self.select(next);
                }
                None
            },
            KeyCode::Up => {
                if self.connections.len() > 0 {
                    let len = self.connections.len();
                    let idx = self.selected_connection_idx;
                    let next: usize = if idx == 0 || idx > len {
                        len - 1
                    } else {
                        idx - 1
                    };
                    self.select(next);
                }
                None
            },
            KeyCode::Enter => {
                if self.connections.len() > 0 {
                    self.mode = ViewMode::ConnectionDetails;
                }
                None
            },
            _ => None,
        }
    }

    /// Takes a key press while one connection is shown.
    pub fn handle_details_keys(&mut self, key: Key) -> (r: Option<Action>)
        ensures
            (final(self)@, r) == old(self)@.after_details_key(key),
    {
        match key.code {
            KeyCode::Esc => {
                self.mode = ViewMode::Overview;
            },
            KeyCode::Char(c) => {
                if c == 'q' {
                    self.mode = ViewMode::Overview;
                } else if c == 'p' {
                    self.mode = ViewMode::ProcessDetails;
                }
            },
            _ => {},
        }
        None
    }

    /// Takes a key press while one process is shown.
    pub fn handle_process_keys(&mut self, key: Key) -> (r: Option<Action>)
        ensures
            (final(self)@, r) == old(self)@.after_process_key(key),
    {
        match key.code {
            KeyCode::Esc => {
                self.mode = ViewMode::ConnectionDetails;
            },
            KeyCode::Char(c) => {
                if c == 'q' {
                    self.mode = ViewMode::ConnectionDetails;
                }
            },
            _ => {},
        }
        None
    }

    /// Takes a key press while the help is shown.
    pub fn handle_help_keys(&mut self, key: Key) -> (r: Option<Action>)
        ensures
            (final(self)@, r) == old(self)@.after_help_key(key),
    {
        match key.code {
            KeyCode::Esc => {
                self.mode = ViewMode::Overview;
            },
            KeyCode::Char(c) => {
                if c == 'q' || c == 'h' {
                    self.mode = ViewMode::Overview;
                }
            },
            _ => {},
        }
        None
    }

    /// The place of the first shown connection that is of the flow of `selected`.
    pub fn find_connection_index(&self, selected: &Connection) -> (r: Option<usize>)
        ensures
            match r {
                Some(i) => index_of_flow(self@.connections, selected@) == Some(i as int) && i
                    < self@.connections.len(),
                None => index_of_flow(self@.connections, selected@) is None,
            },
    {
        let ghost cv = connection_views(self.connections@);
        let mut i: usize = 0;
        assert(cv.subrange(0, cv.len() as int) =~= cv);
        while i < self.connections.len()
            invariant
                i <= self.connections.len(),
                cv == connection_views(self.connections@),
                index_of_flow(cv, selected@) == match index_of_flow(
                    cv.subrange(i as int, cv.len() as int),
                    selected@,
                ) {
                    Some(k) => Some(k + i),
                    None => None,
                },
            decreases self.connections.len() - i,
        {
            let c = &self.connections[i];
            let ghost rest = cv.subrange(i as int, cv.len() as int);
            assert(rest[0] == c@);
            assert(rest.drop_first() =~= cv.subrange(i + 1, cv.len() as int));
            if c.protocol == selected.protocol && c.local_addr == selected.local_addr
                && c.remote_addr == selected.remote_addr {
                return Some(i);
            }
            i = i + 1;
        }
        None
    }

    /// Shows a new list of connections after a refresh, and keeps the selection on the
    /// flow on which it was.
    pub fn refresh(&mut self, new_connections: Vec<Connection>)
        ensures
            final(self)@ == old(self)@.reselected(connection_views(new_connections@)),
    {
        self.connections = new_connections;
        let found = match &self.selected_connection {
            Some(selected) => Some(self.find_connection_index(selected)),
            None => None,
        };
        match found {
            Some(Some(i)) => {
                self.select(i);
            },
            Some(None) => {
                if self.connections.len() > 0 {
                    self.select(0);
                } else {
                    self.selected_connection_idx = 0;
                    self.selected_connection = None;
                }
            },
            None => {},
        }
    }

    /// Shows a new list of connections after a tick, keeps the selection on the flow on
    /// which it was, and selects the first connection where none was selected.
    pub fn on_tick(&mut self, new_connections: Vec<Connection>)
        ensures
            final(self)@ == old(self)@.ticked(connection_views(new_connections@)),
    {
        if self.selected_connection.is_none() && new_connections.len() > 0 {
            self.connections = new_connections;
            self.select(0);
        } else {
            self.refresh(new_connections);
        }
    }

    /// The process of the selected connection, where it was looked up before.
    pub fn cached_process_for_selected_connection(&self) -> (r: Option<Process>)
        ensures
            ({
                let known = self@.selected_connection_idx < self@.connections.len()
                    && self@.connections[self@.selected_connection_idx as int].pid is Some
                    && self@.processes.contains_key(
                    self@.connections[self@.selected_connection_idx as int].pid->Some_0,
                );
                match r {
                    Some(p) => known && p@ == self@.processes[self@.connections[
                        self@.selected_connection_idx as int
                    ].pid->Some_0]@,
                    None => !known,
                }
            }),
    {
        if self.selected_connection_idx >= self.connections.len() {
            return None;
        }
        let c = &self.connections[self.selected_connection_idx];
        assert(connection_views(self.connections@)[self.selected_connection_idx as int] == c@);
        match c.pid {
            Some(pid) => match self.processes.get(&pid) {
                Some(p) => Some(p.clone()),
                None => None,
            },
            None => None,
        }
    }

    /// Keeps the process that was looked up for the selected connection, and notes it on
    /// the connection. Nothing changes where no connection is selected.
    pub fn get_process_for_selected_connection(&mut self, process: Process) -> (r: Option<Process>)
        ensures
            old(self)@.selected_connection_idx >= old(self)@.connections.len() ==> r is None
                && final(self)@ == old(self)@,
            old(self)@.selected_connection_idx < old(self)@.connections.len() ==> r is Some
                && r->Some_0@ == process@ && final(self)@ == (AppView {
                processes: old(self)@.processes.insert(process.pid, process),
                connections: old(self)@.connections.update(
                    old(self)@.selected_connection_idx as int,
                    ConnectionView {
                        pid: Some(process.pid),
                        process_name: Some(process@.name),
                        ..old(self)@.connections[old(self)@.selected_connection_idx as int]
                    },
                ),
                ..old(self)@
            }),
    {
        let i = self.selected_connection_idx;
        if i >= self.connections.len() {
            return None;
        }
        let copy = process.clone();
        let pid = process.pid;
        let name = process.name.clone();
        let ghost before = connection_views(self.connections@);
        self.processes.insert(pid, process);
        let mut c = self.connections.remove(i);
        c.pid = Some(pid);
        c.process_name = Some(name);
        self.connections.insert(i, c);
        assert(connection_views(self.connections@) =~= before.update(
            i as int,
            ConnectionView { pid: Some(pid), process_name: Some(copy@.name), ..before[i as int] },
        ));
        Some(copy)
    }

    /// Notes the host name that was found for an address.
    pub fn cache_host_name(&mut self, ip: IpAddress, name: String)
        ensures
            final(self)@ == (AppView {
                dns_cache: old(self)@.dns_cache.push(HostNameView { ip, name: name@ }),
                ..old(self)@
            }),
    {
        let ghost before = host_views(self.dns_cache@);
        self.dns_cache.push(HostName { ip, name });
        assert(host_views(self.dns_cache@) =~= before.push(HostNameView { ip, name: name@ }));
    }

    fn cached_host_name(&self, ip: &IpAddress) -> (r: Option<&String>)
        ensures
            cached_name(self@.dns_cache, *ip) == match r {
                Some(name) => Some(name@),
                None => None,
            },
    {
        let ghost hv = host_views(self.dns_cache@);
        let mut i: usize = 0;
        assert(hv.subrange(0, hv.len() as int) =~= hv);
        while i < self.dns_cache.len()
            invariant
                i <= self.dns_cache.len(),
                hv == host_views(self.dns_cache@),
                cached_name(hv, *ip) == cached_name(hv.subrange(i as int, hv.len() as int), *ip),
            decreases self.dns_cache.len() - i,
        {
            let h = &self.dns_cache[i];
            let ghost rest = hv.subrange(i as int, hv.len() as int);
            assert(rest[0] == h@);
            assert(rest.drop_first() =~= hv.subrange(i + 1, hv.len() as int));
            if h.ip == *ip {
                return Some(&h.name);
            }
            i = i + 1;
        }
        None
    }

    /// An address as it is shown, with a host name in place of the address where host
    /// names are switched on and one is known.
    pub fn format_socket_addr(&self, addr: SocketAddress) -> (s: String)
        ensures
            s@ == self@.shown_addr(addr),
    {
        if self.show_hostnames {
            let mut out: Vec<char> = Vec::new();
            match self.cached_host_name(&addr.ip) {
                Some(name) => {
                    push_str(&mut out, name.as_str());
                    out.push(':');
                    push_decimal(&mut out, addr.port as u64);
                    assert(out@ =~= name@ + seq![':'] + decimal_text(addr.port as nat));
                    from_chars(&out)
                },
                None => {
                    if addr.ip.is_loopback() {
                        push_str(&mut out, "localhost:");
                        push_decimal(&mut out, addr.port as u64);
                        from_chars(&out)
                    } else if addr.ip.is_unspecified() {
                        push_str(&mut out, "*:");
                        push_decimal(&mut out, addr.port as u64);
                        from_chars(&out)
                    } else {
                        addr.to_text()
                    }
                },
            }
        } else {
            addr.to_text()
        }
    }
}

} // verus!
