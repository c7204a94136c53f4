//! Applications that accounts run behind their domains: the runtimes and
//! their commands, the checks on a new application, its environment, and
//! the descriptor that the web server proxies by.
use vstd::prelude::*;
use crate::error::{ApiError, is_error};
use crate::provision::{RuntimeProvision, runtime_target};
use crate::text::{
    chars_eq, chars_of, dec_int, dec_i64, extend_chars, extend_str, lines, lines_of, split_char, split_on,
    string_of, trim, trim_str,
};

verus! {

/// An application as stored.
pub struct RunApp {
    pub id: i64,
    pub account_id: i64,
    pub domain_id: i64,
    pub domain: String,
    pub app: String,
    pub runtime: String,
    pub entrypoint: String,
    pub port: i64,
    pub auto_restart: bool,
    pub status: String,
    pub pid: Option<i64>,
    pub created_at: String,
    pub env: Option<String>,
}

/// A request to add an application.
pub struct CreateApp {
    pub domain_id: i64,
    pub app: Option<String>,
    pub runtime: String,
    pub entrypoint: String,
    pub port: Option<i64>,
    pub env: Option<String>,
    pub auto_restart: Option<bool>,
}

// ================================================================ runtimes

/// The command that runs a runtime's entry point.
pub open spec fn bin_spec(runtime: Seq<char>) -> Option<Seq<char>> {
    if runtime == "node"@ {
        Some("node"@)
    } else if runtime == "python"@ {
        Some("python3"@)
    } else if runtime == "php"@ {
        Some("php"@)
    } else if runtime == "bun"@ {
        Some("bun"@)
    } else if runtime == "deno"@ {
        Some("deno"@)
    } else if runtime == "go"@ {
        Some("go"@)
    } else if runtime == "ruby"@ {
        Some("ruby"@)
    } else {
        None
    }
}

fn is_lit(s: &Vec<char>, lit: &str) -> (b: bool)
    ensures
        b == (s@ == lit@),
{
    chars_eq(s, &chars_of(lit))
}

pub fn bin_cmd(runtime: &str) -> (r: Option<&'static str>)
    ensures
        match r {
            Some(c) => bin_spec(runtime@) == Some(c@),
            None => bin_spec(runtime@) is None,
        },
{
    let r = chars_of(runtime);
    if is_lit(&r, "node") {
        Some("node")
    } else if is_lit(&r, "python") {
        Some("python3")
    } else if is_lit(&r, "php") {
        Some("php")
    } else if is_lit(&r, "bun") {
        Some("bun")
    } else if is_lit(&r, "deno") {
        Some("deno")
    } else if is_lit(&r, "go") {
        Some("go")
    } else if is_lit(&r, "ruby") {
        Some("ruby")
    } else {
        None
    }
}

/// The command of a runtime, or 400 for one that is not supported.
pub fn runtime_command(runtime: &str) -> (r: Result<&'static str, ApiError>)
    ensures
        match bin_spec(runtime@) {
            Some(c) => r matches Ok(s) && s@ == c,
            None => r matches Err(e) && is_error(e, 400, "Unsupported runtime '"@ + runtime@ + seq!['\'']),
        },
{
    match bin_cmd(runtime) {
        Some(c) => Ok(c),
        None => {
            let mut m = chars_of("Unsupported runtime '");
            extend_str(&mut m, runtime);
            m.push('\'');
            assert(m@ =~= "Unsupported runtime '"@ + runtime@ + seq!['\'']);
            Err(ApiError::from_chars(400, &m))
        },
    }
}

// ================================================================ checks

/// The port of a new application (0 where none is given) must be 1 ..= 65535.
pub fn check_port(port: Option<i64>) -> (r: Result<i64, ApiError>)
    ensures
        ({
            let p = match port {
                Some(p) => p,
                None => 0,
            };
            if 1 <= p <= 65535 {
                r == Ok::<i64, ApiError>(p)
            } else {
                r matches Err(e) && is_error(e, 400, "A valid port (1-65535) is required"@)
            }
        }),
{
    let p: i64 = match port {
        Some(p) => p,
        None => 0,
    };
    if 1 <= p && p <= 65535 {
        Ok(p)
    } else {
        Err(ApiError::new(400, "A valid port (1-65535) is required"))
    }
}

/// An entry point must be a relative path whose segments are neither
/// empty nor `..`.
pub open spec fn entrypoint_shape_ok(e: Seq<char>) -> bool {
    &&& e.len() > 0
    &&& e[0] != '/'
    &&& forall|i: int| 0 <= i < split_char(e, '/').len() ==> {
        let p = #[trigger] split_char(e, '/')[i];
        p != seq!['.', '.'] && p.len() > 0
    }
}

/// Checks an entry point: its shape, then (given `exists`, whether it is a
/// file under the account's web root) that it exists.
pub fn validate_entrypoint(entrypoint: &str, exists: bool) -> (r: Result<(), ApiError>)
    ensures
        !entrypoint_shape_ok(entrypoint@) ==> (r matches Err(e) && is_error(
            e,
            400,
            "Entry point must be a relative path without '..'"@,
        )),
        entrypoint_shape_ok(entrypoint@) && !exists ==> (r matches Err(e) && is_error(
            e,
            400,
            "Entry point not found: "@ + entrypoint@,
        )),
        entrypoint_shape_ok(entrypoint@) && exists ==> r is Ok,
{
    let e = chars_of(entrypoint);
    let mut bad = e.len() == 0 || e[0] == '/';
    if !bad {
        let parts = split_on(&e, '/');
        let mut i: usize = 0;
        while i < parts.len()
            invariant
                i <= parts@.len() == split_char(entrypoint@, '/').len(),
                e@ == entrypoint@,
                forall|k: int| 0 <= k < parts@.len() ==> (#[trigger] parts@[k])@ == split_char(entrypoint@, '/')[k],
                !bad ==> forall|k: int| 0 <= k < i ==> {
                    let p = #[trigger] split_char(entrypoint@, '/')[k];
                    p != seq!['.', '.'] && p.len() > 0
                },
                bad ==> !entrypoint_shape_ok(entrypoint@),
            decreases parts.len() - i,
        {
            let p = &parts[i];
            let dotdot = p.len() == 2 && p[0] == '.' && p[1] == '.';
            proof {
                if p@.len() == 2 && p@[0] == '.' && p@[1] == '.' {
                    assert(p@ =~= seq!['.', '.']);
                }
            }
            if dotdot || p.len() == 0 {
                bad = true;
                assert(!entrypoint_shape_ok(entrypoint@)) by {
                    let q = split_char(entrypoint@, '/')[i as int];
                    assert(q == p@);
                }
            }
            i += 1;
        }
    }
    if bad {
        return Err(ApiError::new(400, "Entry point must be a relative path without '..'"));
    }
    if !exists {
        let mut m = chars_of("Entry point not found: ");
        extend_str(&mut m, entrypoint);
        return Err(ApiError::from_chars(400, &m));
    }
    Ok(())
}

/// An application for the domain already exists (409).
pub fn check_domain_free(existing: i64, domain: &str) -> (r: Result<(), ApiError>)
    ensures
        existing > 0 ==> (r matches Err(e) && is_error(e, 409, "An app for "@ + domain@ + " already exists"@)),
        existing <= 0 ==> r is Ok,
{
    if existing > 0 {
        let mut m = chars_of("An app for ");
        extend_str(&mut m, domain);
        extend_str(&mut m, " already exists");
        Err(ApiError::from_chars(409, &m))
    } else {
        Ok(())
    }
}

/// The port is taken by another application (409).
pub fn check_port_free(conflicts: i64, port: i64) -> (r: Result<(), ApiError>)
    ensures
        conflicts > 0 ==> (r matches Err(e) && is_error(e, 409, "Port "@ + dec_int(port as int) + " is already in use"@)),
        conflicts <= 0 ==> r is Ok,
{
    if conflicts > 0 {
        let mut m = chars_of("Port ");
        extend_chars(&mut m, &dec_i64(port));
        extend_str(&mut m, " is already in use");
        Err(ApiError::from_chars(409, &m))
    } else {
        Ok(())
    }
}

/// The stored fields of a new application that come from the request: its
/// name (`app` by default), its environment (none where blank) and whether
/// it restarts (no by default).
pub fn app_defaults(input: &CreateApp) -> (r: (String, Option<String>, bool))
    ensures
        r.0@ == (match input.app {
            Some(a) => a@,
            None => "app"@,
        }),
        r.1 == (match input.env {
            Some(e) => if trim(e@).len() > 0 {
                Some(e)
            } else {
                None
            },
            None => None,
        }),
        r.2 == (match input.auto_restart {
            Some(a) => a,
            None => false,
        }),
{
    let name = match &input.app {
        Some(a) => string_of(&chars_of(a.as_str())),
        None => "app".to_string(),
    };
    let env = match &input.env {
        Some(e) => if trim_str(e.as_str()).len() > 0 {
            Some(e.clone())
        } else {
            None
        },
        None => None,
    };
    let auto = match input.auto_restart {
        Some(a) => a,
        None => false,
    };
    (name, env, auto)
}

// ================================================================ running

/// The last `lines` lines of an application's log (within 1 ..= 2000), oldest first.
pub fn log_tail(text: &str, lines_wanted: i64) -> (r: Vec<String>)
    ensures
        ({
            let ls = lines(text@);
            let n: int = if lines_wanted < 1 {
                1
            } else if lines_wanted > 2000 {
                2000
            } else {
                lines_wanted as int
            };
            let start = if ls.len() > n { ls.len() - n } else { 0 };
            r@.map_values(|s: String| s@) == ls.skip(start)
        }),
{
    let n: usize = if lines_wanted < 1 {
        1
    } else if lines_wanted > 2000 {
        2000
    } else {
        lines_wanted as usize
    };
    let ls = lines_of(&chars_of(text));
    let ghost all = lines(text@);
    let start: usize = if ls.len() > n {
        ls.len() - n
    } else {
        0
    };
    let mut out: Vec<String> = Vec::new();
    let mut i: usize = start;
    while i < ls.len()
        invariant
            start <= i <= ls@.len() == all.len(),
            forall|k: int| 0 <= k < ls@.len() ==> (#[trigger] ls@[k])@ == all[k],
            out@.map_values(|s: String| s@) == all.subrange(start as int, i as int),
        decreases ls.len() - i,
    {
        let ghost before = out@.map_values(|s: String| s@);
        out.push(string_of(&ls[i]));
        assert(out@.map_values(|s: String| s@) =~= before.push(all[i as int]));
        assert(all.subrange(start as int, i + 1) =~= all.subrange(start as int, i as int).push(all[i as int]));
        i += 1;
    }
    assert(all.subrange(start as int, all.len() as int) =~= all.skip(start as int));
    out
}

/// An application listed as running whose process has ended is shown as
/// stopped, without a process id.
pub fn reconcile(app: &mut RunApp, alive: bool)
    ensures
        (old(app).status@ == "running"@ && !alive) ==> final(app).status@ == "stopped"@ && final(app).pid is None,
        !(old(app).status@ == "running"@ && !alive) ==> final(app).status == old(app).status && final(app).pid
            == old(app).pid,
        final(app).id == old(app).id && final(app).port == old(app).port && final(app).domain == old(app).domain,
{
    if is_lit(&chars_of(app.status.as_str()), "running") && !alive {
        app.status = "stopped".to_string();
        app.pid = None;
    }
}

/// The descriptor by which the web server sends a domain to its application.
pub fn runtime_descriptor(app: &RunApp) -> (d: RuntimeProvision)
    ensures
        d.domain@ == app.domain@ && d.app@ == app.app@ && d.runtime@ == app.runtime@,
        d.entrypoint@ == app.entrypoint@ && d.auto_restart == app.auto_restart,
        d.target@ == "127.0.0.1:"@ + dec_int(app.port as int),
{
    RuntimeProvision {
        domain: string_of(&chars_of(app.domain.as_str())),
        app: string_of(&chars_of(app.app.as_str())),
        runtime: string_of(&chars_of(app.runtime.as_str())),
        entrypoint: string_of(&chars_of(app.entrypoint.as_str())),
        target: runtime_target(app.port),
        auto_restart: app.auto_restart,
    }
}

// ================================================================ environment

/// Name of what `serde_json` reads from a text, taken as an object: its
/// entries in the map's order, each value a string or not; none where the
/// text is not a JSON object.
pub uninterp spec fn json_object_entries(text: Seq<char>) -> Option<Seq<(Seq<char>, Option<Seq<char>>)>>;

pub open spec fn entry_view(e: (String, Option<String>)) -> (Seq<char>, Option<Seq<char>>) {
    (e.0@, match e.1 {
        Some(s) => Some(s@),
        None => None,
    })
}

/// `serde_json::from_str::<Value>(text)`: where the text is a JSON object,
/// its entries, with each string value given and other values left out as
/// `None`.  The result depends on the text alone, named `json_object_entries`.
#[verifier::external_body]
fn json_object(text: &str) -> (r: Option<Vec<(String, Option<String>)>>)
    ensures
        match r {
            Some(v) => json_object_entries(text@) == Some(v@.map_values(|e: (String, Option<String>)| entry_view(e))),
            None => json_object_entries(text@) is None,
        },
{
    match serde_json::from_str::<serde_json::Value>(text) {
        Ok(serde_json::Value::Object(map)) => Some(
            map.into_iter().map(|(k, v)| match v {
                serde_json::Value::String(s) => (k, Some(s)),
                _ => (k, None),
            }).collect(),
        ),
        _ => None,
    }
}

/// The string entries, in order.
pub open spec fn string_entries(es: Seq<(Seq<char>, Option<Seq<char>>)>) -> Seq<(Seq<char>, Seq<char>)>
    decreases es.len(),
{
    if es.len() == 0 {
        Seq::empty()
    } else {
        match es.last().1 {
            Some(v) => string_entries(es.drop_last()).push((es.last().0, v)),
            None => string_entries(es.drop_last()),
        }
    }
}

/// The variables an application is started with: the string entries of its
/// stored environment, where that is a JSON object.
pub fn env_map(env: Option<&str>) -> (r: Vec<(String, String)>)
    ensures
        r@.map_values(|p: (String, String)| (p.0@, p.1@)) == match env {
            Some(t) => match json_object_entries(t@) {
                Some(es) => string_entries(es),
                None => Seq::empty(),
            },
            None => Seq::empty(),
        },
{
    let mut out: Vec<(String, String)> = Vec::new();
    assert(out@.map_values(|p: (String, String)| (p.0@, p.1@)) =~= Seq::<(Seq<char>, Seq<char>)>::empty());
    let t = match env {
        Some(t) => t,
        None => {
            return out;
        },
    };
    let entries = match json_object(t) {
        Some(v) => v,
        None => {
            return out;
        },
    };
    let ghost es = entries@.map_values(|e: (String, Option<String>)| entry_view(e));
    let mut i: usize = 0;
    while i < entries.len()
        invariant
            i <= entries@.len(),
            es == entries@.map_values(|e: (String, Option<String>)| entry_view(e)),
            out@.map_values(|p: (String, String)| (p.0@, p.1@)) == string_entries(es.take(i as int)),
        decreases entries.len() - i,
    {
        assert(es.take(i + 1).drop_last() =~= es.take(i as int));
        assert(es.take(i + 1).last() == entry_view(entries@[i as int]));
        let ghost before = out@.map_values(|p: (String, String)| (p.0@, p.1@));
        match &entries[i].1 {
            Some(v) => {
                out.push((string_of(&chars_of(entries[i].0.as_str())), string_of(&chars_of(v.as_str()))));
                assert(out@.map_values(|p: (String, String)| (p.0@, p.1@)) =~= before.push(
                    (entries@[i as int].0@, v@),
                ));
            },
            None => {},
        }
        i += 1;
    }
    assert(es.take(entries.len() as int) =~= es);
    out
}

} // verus!
