//! The MCP host: the tool servers it keeps by name, the request ids it hands
//! out, and how a server's command line and reply are read. Starting the
//! server processes and talking to them is done by the application around
//! this library, which chooses the connection type `C`.
use vstd::prelude::*;
use crate::error::Error;
use crate::text::{chars_equal, chars_of, signed_decimal, signed_decimal_string, words, words_of};

verus! {

/// The position of the first entry named `name`, if any.
pub open spec fn find_server<C>(es: Seq<(Seq<char>, C)>, name: Seq<char>) -> Option<int>
    decreases es.len(),
{
    if es.len() == 0 {
        None
    } else {
        match find_server(es.drop_last(), name) {
            Some(i) => Some(i),
            None => if es.last().0 == name {
                Some(es.len() - 1)
            } else {
                None
            },
        }
    }
}

/// `find_server` finds an entry of that name; it finds none exactly when no
/// entry has that name.
pub proof fn lemma_find_server<C>(es: Seq<(Seq<char>, C)>, name: Seq<char>)
    ensures
        match find_server(es, name) {
            Some(i) => 0 <= i < es.len() && es[i].0 == name && forall|j: int|
                0 <= j < i ==> (#[trigger] es[j]).0 != name,
            None => forall|j: int| 0 <= j < es.len() ==> (#[trigger] es[j]).0 != name,
        },
    decreases es.len(),
{
    if es.len() > 0 {
        let init = es.drop_last();
        lemma_find_server(init, name);
        assert forall|j: int| 0 <= j < es.len() - 1 implies es[j] == #[trigger] init[j] by {}
        assert(es.last() == es[es.len() - 1]);
        match find_server(init, name) {
            Some(i) => {
                assert forall|j: int| 0 <= j < i implies (#[trigger] es[j]).0 != name by {
                    assert(es[j] == init[j]);
                }
            },
            None => {
                assert forall|j: int| 0 <= j < es.len() - 1 implies (#[trigger] es[j]).0 != name by {
                    assert(es[j] == init[j]);
                }
            },
        }
    }
}

/// What `find_server` finds in a prefix it finds in the whole.
proof fn lemma_find_server_prefix<C>(es: Seq<(Seq<char>, C)>, k: int, name: Seq<char>)
    requires
        0 <= k <= es.len(),
        find_server(es.take(k), name) is Some,
    ensures
        find_server(es, name) == find_server(es.take(k), name),
    decreases es.len() - k,
{
    if k == es.len() {
        assert(es.take(k) =~= es);
    } else {
        assert(es.drop_last().take(k) =~= es.take(k));
        lemma_find_server_prefix(es.drop_last(), k, name);
    }
}

/// The first entry of a name is found.
proof fn lemma_find_server_exact<C>(es: Seq<(Seq<char>, C)>, name: Seq<char>, i: int)
    requires
        0 <= i < es.len(),
        es[i].0 == name,
        forall|j: int| 0 <= j < i ==> (#[trigger] es[j]).0 != name,
    ensures
        find_server(es, name) == Some(i),
{
    lemma_find_server(es, name);
    match find_server(es, name) {
        Some(k) => {
            if k < i {
                assert(es[k].0 == name);
            } else if k > i {
                assert(es[i].0 == name);
            }
        },
        None => {
            assert(es[i].0 == name);
        },
    }
}

/// A server kept under a name is what that name finds afterwards, in place
/// of any server it replaced, and the other names find what they found
/// before.
pub proof fn law_add_then_find<C>(es: Seq<(Seq<char>, C)>, name: Seq<char>, conn: C, other: Seq<char>)
    requires
        distinct_names(es),
    ensures
        match find_server(es, name) {
            Some(i) => {
                &&& find_server(es.update(i, (name, conn)), name) == Some(i)
                &&& distinct_names(es.update(i, (name, conn)))
                &&& other != name ==> find_server(es.update(i, (name, conn)), other) == find_server(
                    es,
                    other,
                )
            },
            None => {
                &&& find_server(es.push((name, conn)), name) == Some(es.len() as int)
                &&& distinct_names(es.push((name, conn)))
                &&& other != name ==> find_server(es.push((name, conn)), other) == find_server(
                    es,
                    other,
                )
            },
        },
{
    lemma_find_server(es, name);
    lemma_find_server(es, other);
    match find_server(es, name) {
        Some(i) => {
            let after = es.update(i, (name, conn));
            assert forall|j: int| 0 <= j < after.len() implies (#[trigger] after[j]).0 == es[j].0 by {}
            lemma_find_server_exact(after, name, i);
            if other != name {
                match find_server(es, other) {
                    Some(k) => {
                        assert(after[k].0 == es[k].0);
                        assert forall|j: int| 0 <= j < k implies (#[trigger] after[j]).0 != other by {
                            assert(after[j].0 == es[j].0);
                        }
                        lemma_find_server_exact(after, other, k);
                    },
                    None => {
                        lemma_find_server(after, other);
                        if find_server(after, other) is Some {
                            let k = find_server(after, other)->0;
                            assert(after[k].0 == es[k].0);
                        }
                    },
                }
            }
            assert forall|a: int, b: int| 0 <= a < b < after.len() implies (#[trigger] after[a]).0
                != (#[trigger] after[b]).0 by {
                assert(after[a].0 == es[a].0);
                assert(after[b].0 == es[b].0);
            }
        },
        None => {
            let after = es.push((name, conn));
            assert(after.drop_last() =~= es);
            assert forall|a: int, b: int| 0 <= a < b < after.len() implies (#[trigger] after[a]).0
                != (#[trigger] after[b]).0 by {
                if b < es.len() {
                    assert(after[a] == es[a]);
                    assert(after[b] == es[b]);
                } else {
                    assert(after[a] == es[a]);
                }
            }
        },
    }
}

/// The entries after keeping `conn` under `name`: in place of the entry of
/// that name if there is one, else appended.
pub open spec fn with_server<C>(es: Seq<(Seq<char>, C)>, name: Seq<char>, conn: C) -> Seq<(Seq<char>, C)> {
    match find_server(es, name) {
        Some(i) => es.update(i, (name, conn)),
        None => es.push((name, conn)),
    }
}

/// The entries after adding servers one after another to `es`.
pub open spec fn with_servers<C>(es: Seq<(Seq<char>, C)>, adds: Seq<(Seq<char>, C)>) -> Seq<(Seq<char>, C)>
    decreases adds.len(),
{
    if adds.len() == 0 {
        es
    } else {
        with_server(with_servers(es, adds.drop_last()), adds.last().0, adds.last().1)
    }
}

/// A host that starts empty and has servers added under some names lists
/// each of those names exactly once and no other name; a repeated name
/// keeps the server added last under it.
pub proof fn law_started_names_listed_once<C>(adds: Seq<(Seq<char>, C)>, n: Seq<char>)
    ensures
        distinct_names(with_servers(Seq::<(Seq<char>, C)>::empty(), adds)),
        (exists|j: int| 0 <= j < with_servers(Seq::<(Seq<char>, C)>::empty(), adds).len()
            && (#[trigger] with_servers(Seq::<(Seq<char>, C)>::empty(), adds)[j]).0 == n) <==> (exists|i: int|
            0 <= i < adds.len() && (#[trigger] adds[i]).0 == n),
        adds.len() > 0 ==> (find_server(
            with_servers(Seq::<(Seq<char>, C)>::empty(), adds),
            adds.last().0,
        ) matches Some(k) && with_servers(Seq::<(Seq<char>, C)>::empty(), adds)[k].1 == adds.last().1),
    decreases adds.len(),
{
    let es = with_servers(Seq::<(Seq<char>, C)>::empty(), adds);
    if adds.len() == 0 {
    } else {
        let init = adds.drop_last();
        let prev = with_servers(Seq::<(Seq<char>, C)>::empty(), init);
        law_started_names_listed_once(init, n);
        let (name, conn) = adds.last();
        law_add_then_find(prev, name, conn, n);
        lemma_find_server(prev, name);
        lemma_find_server(es, name);
        match find_server(prev, name) {
            Some(i) => {
                assert(es == prev.update(i, (name, conn)));
                assert forall|j: int| 0 <= j < es.len() implies (#[trigger] es[j]).0 == prev[j].0 by {}
                if exists|i2: int| 0 <= i2 < adds.len() && (#[trigger] adds[i2]).0 == n {
                    let i2 = choose|i2: int| 0 <= i2 < adds.len() && (#[trigger] adds[i2]).0 == n;
                    if i2 < init.len() {
                        assert(init[i2] == adds[i2]);
                        let j = choose|j: int| 0 <= j < prev.len() && (#[trigger] prev[j]).0 == n;
                        assert(es[j].0 == n);
                    } else {
                        assert(es[i].0 == n);
                    }
                }
                if exists|j: int| 0 <= j < es.len() && (#[trigger] es[j]).0 == n {
                    let j = choose|j: int| 0 <= j < es.len() && (#[trigger] es[j]).0 == n;
                    assert(prev[j].0 == n);
                    let i2 = choose|i2: int| 0 <= i2 < init.len() && (#[trigger] init[i2]).0 == n;
                    assert(adds[i2] == init[i2]);
                }
            },
            None => {
                assert(es == prev.push((name, conn)));
                if exists|i2: int| 0 <= i2 < adds.len() && (#[trigger] adds[i2]).0 == n {
                    let i2 = choose|i2: int| 0 <= i2 < adds.len() && (#[trigger] adds[i2]).0 == n;
                    if i2 < init.len() {
                        assert(init[i2] == adds[i2]);
                        let j = choose|j: int| 0 <= j < prev.len() && (#[trigger] prev[j]).0 == n;
                        assert(es[j] == prev[j]);
                    } else {
                        assert(es[prev.len() as int].0 == n);
                    }
                }
                if exists|j: int| 0 <= j < es.len() && (#[trigger] es[j]).0 == n {
                    let j = choose|j: int| 0 <= j < es.len() && (#[trigger] es[j]).0 == n;
                    if j < prev.len() {
                        assert(es[j] == prev[j]);
                        let i2 = choose|i2: int| 0 <= i2 < init.len() && (#[trigger] init[i2]).0 == n;
                        assert(adds[i2] == init[i2]);
                    } else {
                        assert(adds[adds.len() - 1].0 == n);
                    }
                }
            },
        }
    }
}

/// No two entries share a name.
pub open spec fn distinct_names<C>(es: Seq<(Seq<char>, C)>) -> bool {
    forall|i: int, j: int| 0 <= i < j < es.len() ==> (#[trigger] es[i]).0 != (#[trigger] es[j]).0
}

/// The servers a host keeps, each under its name, and the id of the next
/// request.
pub struct McpHost<C> {
    servers: Vec<(String, C)>,
    next_id: u64,
}

impl<C> McpHost<C> {
    /// The servers, each with its name, in the order first added.
    pub closed spec fn entries(&self) -> Seq<(Seq<char>, C)> {
        self.servers@.map_values(|e: (String, C)| (e.0@, e.1))
    }

    /// The id the next request gets.
    pub closed spec fn next_id(&self) -> u64 {
        self.next_id
    }

    /// No two servers share a name.
    pub open spec fn wf(&self) -> bool {
        distinct_names(self.entries())
    }

    /// A host with no server; the first request gets id 1.
    pub fn new() -> (r: Self)
        ensures
            r.wf(),
            r.entries() == Seq::<(Seq<char>, C)>::empty(),
            r.next_id() == 1,
    {
        let r = McpHost { servers: Vec::new(), next_id: 1 };
        assert(r.entries() =~= Seq::<(Seq<char>, C)>::empty());
        r
    }

    /// The id the next request gets.
    pub fn next_request_id(&self) -> (r: u64)
        ensures
            r == self.next_id(),
    {
        self.next_id
    }

    /// The position of the server named `name`.
    pub fn find(&self, name: &str) -> (r: Option<usize>)
        ensures
            match r {
                Some(i) => find_server(self.entries(), name@) == Some(i as int),
                None => find_server(self.entries(), name@) is None,
            },
    {
        let wanted = chars_of(name);
        let mut i: usize = 0;
        while i < self.servers.len()
            invariant
                i <= self.servers.len(),
                wanted@ == name@,
                find_server(self.entries().take(i as int), name@) is None,
            decreases self.servers.len() - i,
        {
            assert(self.entries().take(i + 1).drop_last() =~= self.entries().take(i as int));
            assert(self.entries()[i as int] == (self.servers@[i as int].0@, self.servers@[i as int].1));
            if chars_equal(&chars_of(self.servers[i].0.as_str()), &wanted) {
                proof {
                    lemma_find_server_prefix(self.entries(), i + 1, name@);
                }
                return Some(i);
            }
            i = i + 1;
        }
        assert(self.entries().take(i as int) =~= self.entries());
        None
    }

    /// The names of the servers.
    pub fn list_servers(&self) -> (r: Vec<&str>)
        ensures
            r@.len() == self.entries().len(),
            forall|i: int| 0 <= i < r@.len() ==> (#[trigger] r@[i])@ == self.entries()[i].0,
    {
        let mut r: Vec<&str> = Vec::new();
        let mut i: usize = 0;
        while i < self.servers.len()
            invariant
                i <= self.servers.len(),
                r@.len() == i,
                forall|j: int| 0 <= j < i ==> (#[trigger] r@[j])@ == self.entries()[j].0,
            decreases self.servers.len() - i,
        {
            r.push(self.servers[i].0.as_str());
            i = i + 1;
        }
        r
    }

    /// Keeps `conn` under `name`, in place of the server of that name if
    /// there is one.
    pub fn add_server(&mut self, name: String, conn: C)
        requires
            old(self).wf(),
        ensures
            final(self).wf(),
            final(self).next_id() == old(self).next_id(),
            final(self).entries() == with_server(old(self).entries(), name@, conn),
    {
        proof {
            lemma_find_server(self.entries(), name@);
        }
        let ghost es = self.entries();
        let nm = name.as_str();
        assert(nm@ == name@);
        let found = self.find(nm);
        assert(self.entries() == es);
        match found {
            Some(i) => {
                assert(es[i as int].0 == name@);
                self.servers.set(i, (name, conn));
                assert(self.entries() =~= es.update(i as int, (es[i as int].0, conn)));
                assert(self.entries() == es.update(i as int, (name@, conn)));
            },
            None => {
                self.servers.push((name, conn));
                assert(self.entries() =~= es.push((name@, conn)));
            },
        }
    }

    /// The connection at position `i`, to use in place.
    pub fn connection_mut(&mut self, i: usize) -> (c: &mut C)
        requires
            i < old(self).entries().len(),
        ensures
            *c == old(self).entries()[i as int].1,
            final(self).entries() == old(self).entries().update(
                i as int,
                (old(self).entries()[i as int].0, *final(c)),
            ),
            final(self).next_id() == old(self).next_id(),
            old(self).wf() ==> final(self).wf(),
    {
        let ghost es = self.entries();
        let c = &mut self.servers[i].1;
        proof {
            let after = es.update(i as int, (es[i as int].0, *final(c)));
            if distinct_names(es) {
                assert forall|a: int, b: int| 0 <= a < b < after.len() implies (#[trigger] after[a]).0
                    != (#[trigger] after[b]).0 by {
                    assert(after[a].0 == es[a].0);
                    assert(after[b].0 == es[b].0);
                }
            }
        }
        c
    }

    /// Starts a request to `server`: when the host keeps a server of that
    /// name, hands out the next id; otherwise refuses, changing nothing.
    pub fn begin_call(&mut self, server: &str) -> (r: Result<u64, Error>)
        requires
            find_server(old(self).entries(), server@) is Some ==> old(self).next_id() < u64::MAX,
        ensures
            find_server(old(self).entries(), server@) is Some ==> {
                &&& r == Ok::<u64, Error>(old(self).next_id())
                &&& final(self).next_id() == old(self).next_id() + 1
                &&& final(self).entries() == old(self).entries()
            },
            find_server(old(self).entries(), server@) is None ==> {
                &&& r matches Err(Error::Mcp(m)) && m@ == "服务器不存在: "@ + server@
                &&& final(self).next_id() == old(self).next_id()
                &&& final(self).entries() == old(self).entries()
            },
    {
        match self.find(server) {
            Some(_) => {
                let id = self.next_id;
                self.next_id = self.next_id + 1;
                Ok(id)
            },
            None => {
                let mut m = String::from_str("服务器不存在: ");
                m.append(server);
                Err(Error::Mcp(m))
            },
        }
    }
}

impl<C> Default for McpHost<C> {
    /// A host with no server.
    fn default() -> (r: Self)
        ensures
            r.wf(),
            r.entries() == Seq::<(Seq<char>, C)>::empty(),
            r.next_id() == 1,
    {
        Self::new()
    }
}

/// The program and arguments of a server's command line, split at
/// whitespace; an empty command is refused.
pub fn parse_command(command: &str) -> (r: Result<(String, Vec<String>), Error>)
    ensures
        words(command@).len() == 0 <==> r is Err,
        r matches Err(e) ==> e matches Error::Mcp(m) && m@ == "命令为空"@,
        r matches Ok((program, args)) ==> program@ == words(command@)[0] && args.deep_view()
            == words(command@).drop_first(),
{
    let mut ws = words_of(command);
    if ws.len() == 0 {
        return Err(Error::Mcp(String::from_str("命令为空")));
    }
    let ghost all = ws.deep_view();
    let program = ws.remove(0);
    assert(ws.deep_view() =~= all.drop_first());
    Ok((program, ws))
}

/// The plain parts of a tool call sent to a server: the JSON-RPC version,
/// the method, the tool's name and the request id (the arguments are the
/// caller's JSON, added when the request is written).
#[derive(Debug, Clone)]
pub struct ToolCallRequest {
    pub jsonrpc: String,
    pub method: String,
    pub tool: String,
    pub id: u64,
}

/// The request that calls `tool` with the id `begin_call` handed out:
/// JSON-RPC "2.0", method "tools/call".
pub fn tool_call_request(id: u64, tool: &str) -> (r: ToolCallRequest)
    ensures
        r.jsonrpc@ == "2.0"@,
        r.method@ == "tools/call"@,
        r.tool@ == tool@,
        r.id == id,
{
    ToolCallRequest {
        jsonrpc: String::from_str("2.0"),
        method: String::from_str("tools/call"),
        tool: String::from_str(tool),
        id,
    }
}

/// What a server's reply gives: its error, as an MCP error with the code and
/// message, or else its result.
pub fn call_outcome<V>(result: Option<V>, error: Option<(i32, String)>) -> (r: Result<Option<V>, Error>)
    ensures
        match error {
            Some((code, message)) => r matches Err(Error::Mcp(m)) && m@ == "MCP 错误: "@
                + signed_decimal(code as int) + " - "@ + message@,
            None => r == Ok::<Option<V>, Error>(result),
        },
{
    match error {
        Some((code, message)) => {
            let mut m = String::from_str("MCP 错误: ");
            let c = signed_decimal_string(code as i64);
            m.append(c.as_str());
            m.append(" - ");
            m.append(message.as_str());
            Err(Error::Mcp(m))
        },
        None => Ok(result),
    }
}

} // verus!
