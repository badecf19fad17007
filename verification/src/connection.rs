//! Connection configuration and the pure parts of the transport layer:
//! address building, the request envelope, the handshake body, and the
//! port-discovery decision. The HTTP exchanges themselves live outside
//! the library.

use vstd::prelude::*;
use vstd::string::StringExecFns;

use crate::json::JsonSpec;
use crate::json::JsonVal;
use crate::json::jv_view_entries;
use crate::json::lemma_jv_view_entries;

verus! {

/// Decimal digit `d` as a character.
pub open spec fn spec_digit_char(d: int) -> char {
    if d == 0 {
        '0'
    } else if d == 1 {
        '1'
    } else if d == 2 {
        '2'
    } else if d == 3 {
        '3'
    } else if d == 4 {
        '4'
    } else if d == 5 {
        '5'
    } else if d == 6 {
        '6'
    } else if d == 7 {
        '7'
    } else if d == 8 {
        '8'
    } else {
        '9'
    }
}

/// Decimal digits of `n >= 0`, most significant first.
pub open spec fn spec_dec(n: int) -> Seq<char>
    decreases n,
{
    if n < 10 {
        seq![spec_digit_char(n)]
    } else {
        spec_dec(n / 10).push(spec_digit_char(n % 10))
    }
}

/// A port as text: decimal digits, with a minus sign if negative.
pub open spec fn spec_port_str(p: int) -> Seq<char> {
    if p < 0 {
        seq!['-'] + spec_dec(-p)
    } else {
        spec_dec(p)
    }
}

fn digit_char(d: u64) -> (r: char)
    requires
        d < 10,
    ensures
        r == spec_digit_char(d as int),
{
    if d == 0 {
        '0'
    } else if d == 1 {
        '1'
    } else if d == 2 {
        '2'
    } else if d == 3 {
        '3'
    } else if d == 4 {
        '4'
    } else if d == 5 {
        '5'
    } else if d == 6 {
        '6'
    } else if d == 7 {
        '7'
    } else if d == 8 {
        '8'
    } else {
        '9'
    }
}

/// `n` in decimal.
pub fn u64_dec(n: u64) -> (r: String)
    ensures
        r@ == spec_dec(n as int),
    decreases n,
{
    if n < 10 {
        let mut s = String::new();
        s.push(digit_char(n));
        proof {
            assert(s@ =~= seq![spec_digit_char(n as int)]);
        }
        s
    } else {
        let mut s = u64_dec(n / 10);
        s.push(digit_char(n % 10));
        s
    }
}

/// A port number in decimal, as it appears in an address.
pub fn port_string(p: i16) -> (r: String)
    ensures
        r@ == spec_port_str(p as int),
{
    if p < 0 {
        let mag: i32 = -(p as i32);
        let s = String::from_str("-").concat(u64_dec(mag as u64).as_str());
        proof {
            reveal_strlit("-");
            assert(s@ =~= seq!['-'] + spec_dec(-(p as int)));
        }
        s
    } else {
        u64_dec(p as u64)
    }
}

/// The service-side operation names.
#[derive(Debug, Clone, Copy, PartialEq, Eq)]
pub enum Direction {
    TimeSeries,
    DataGrid,
}

/// The operation name on the wire.
pub open spec fn spec_direction_str(d: Direction) -> Seq<char> {
    match d {
        Direction::TimeSeries => "TimeSeries"@,
        Direction::DataGrid => "DataGrid_StandardAsync"@,
    }
}

impl Direction {
    /// The operation name on the wire.
    pub fn as_str(&self) -> (r: &'static str)
        ensures
            r@ == spec_direction_str(*self),
    {
        match self {
            Direction::TimeSeries => "TimeSeries",
            Direction::DataGrid => "DataGrid_StandardAsync",
        }
    }
}

/// Where and as whom the service is called: host, port, and the
/// application credential attached to every request.
#[derive(Debug, Clone)]
pub struct Connection {
    pub app_key: String,
    pub url: String,
    pub port: i16,
}

impl Connection {
    pub fn new(app_key: String, ip: String, port: i16) -> (r: Self)
        ensures
            r.app_key == app_key,
            r.url == ip,
            r.port == port,
    {
        Self { app_key, url: ip, port }
    }

    /// The scheme and host, without the port.
    pub fn get_url(&self) -> (r: String)
        ensures
            r@ == "http://"@ + self.url@,
    {
        String::from_str("http://").concat(self.url.as_str())
    }

    /// The scheme, host and port.
    pub fn get_address(&self) -> (r: String)
        ensures
            r@ == "http://"@ + self.url@ + ":"@ + spec_port_str(self.port as int),
    {
        let s = self.get_url().concat(":").concat(port_string(self.port).as_str());
        proof {
            assert(s@ =~= "http://"@ + self.url@ + ":"@ + spec_port_str(self.port as int));
        }
        s
    }

    pub fn get_app_key(&self) -> (r: &String)
        ensures
            r == &self.app_key,
    {
        &self.app_key
    }

    pub fn set_port(&mut self, port: i16)
        ensures
            final(self).port == port,
            final(self).app_key == old(self).app_key,
            final(self).url == old(self).url,
    {
        self.port = port
    }

    /// Address of the liveness probe on `port`.
    pub fn status_url(&self, port: i16) -> (r: String)
        ensures
            r@ == "http://"@ + self.url@ + ":"@ + spec_port_str(port as int) + "/api/status"@,
    {
        let s = self.get_url().concat(":").concat(port_string(port).as_str()).concat(
            "/api/status",
        );
        proof {
            assert(s@ =~= "http://"@ + self.url@ + ":"@ + spec_port_str(port as int)
                + "/api/status"@);
        }
        s
    }

    /// Address of the handshake endpoint.
    pub fn handshake_url(&self) -> (r: String)
        ensures
            r@ == "http://"@ + self.url@ + ":"@ + spec_port_str(self.port as int)
                + "/api/handshake"@,
    {
        let s = self.get_address().concat("/api/handshake");
        proof {
            assert(s@ =~= "http://"@ + self.url@ + ":"@ + spec_port_str(self.port as int)
                + "/api/handshake"@);
        }
        s
    }

    /// Address of the data endpoint.
    pub fn data_url(&self) -> (r: String)
        ensures
            r@ == "http://"@ + self.url@ + ":"@ + spec_port_str(self.port as int) + "/api/v1/data"@,
    {
        let s = self.get_address().concat("/api/v1/data");
        proof {
            assert(s@ =~= "http://"@ + self.url@ + ":"@ + spec_port_str(self.port as int)
                + "/api/v1/data"@);
        }
        s
    }

    /// The body of the one-shot credential handshake.
    pub fn handshake_body(&self) -> (r: JsonVal)
        ensures
            r@ == JsonSpec::Obj(
                seq![
                    ("AppKey"@, JsonSpec::Str(self.app_key@)),
                    ("AppScope"@, JsonSpec::Str("trapi"@)),
                    ("ApiVersion"@, JsonSpec::Str("1"@)),
                ],
            ),
    {
        proof {
            broadcast use lemma_jv_view_entries;

        }
        let mut entries: Vec<(String, JsonVal)> = Vec::new();
        entries.push((String::from_str("AppKey"), JsonVal::Str(self.app_key.clone())));
        entries.push((String::from_str("AppScope"), JsonVal::Str(String::from_str("trapi"))));
        entries.push((String::from_str("ApiVersion"), JsonVal::Str(String::from_str("1"))));
        let r = JsonVal::Obj(entries);
        proof {
            assert(jv_view_entries(r->Obj_0@) =~= seq![
                ("AppKey"@, JsonSpec::Str(self.app_key@)),
                ("AppScope"@, JsonSpec::Str("trapi"@)),
                ("ApiVersion"@, JsonSpec::Str("1"@)),
            ]);
        }
        r
    }
}

/// The envelope around every data request:
/// `{"Entity": {"E": <direction>, "W": <payload>}}`.
pub open spec fn spec_entity(direction: Direction, payload: JsonSpec) -> JsonSpec {
    JsonSpec::Obj(
        seq![
            (
                "Entity"@,
                JsonSpec::Obj(
                    seq![
                        ("E"@, JsonSpec::Str(spec_direction_str(direction))),
                        ("W"@, payload),
                    ],
                ),
            ),
        ],
    )
}

/// Wrap one chunk payload in the request envelope.
pub fn wrap_entity(direction: &Direction, payload: JsonVal) -> (r: JsonVal)
    ensures
        r@ == spec_entity(*direction, payload@),
{
    proof {
        broadcast use lemma_jv_view_entries;

    }
    let ghost gpayload = payload@;
    let mut inner: Vec<(String, JsonVal)> = Vec::new();
    inner.push((String::from_str("E"), JsonVal::Str(String::from_str(direction.as_str()))));
    inner.push((String::from_str("W"), payload));
    let inner_obj = JsonVal::Obj(inner);
    proof {
        assert(jv_view_entries(inner_obj->Obj_0@) =~= seq![
            ("E"@, JsonSpec::Str(spec_direction_str(*direction))),
            ("W"@, gpayload),
        ]);
    }
    let mut outer: Vec<(String, JsonVal)> = Vec::new();
    outer.push((String::from_str("Entity"), inner_obj));
    let r = JsonVal::Obj(outer);
    proof {
        assert(jv_view_entries(r->Obj_0@) =~= spec_entity(*direction, gpayload)->Obj_0);
    }
    r
}

/// First index holding `true`, if any.
pub open spec fn spec_first_true(s: Seq<bool>) -> Option<int>
    decreases s.len(),
{
    if s.len() == 0 {
        Option::None
    } else if s[0] {
        Option::Some(0int)
    } else {
        match spec_first_true(s.drop_first()) {
            Option::Some(i) => Option::Some(i + 1),
            Option::None => Option::None,
        }
    }
}

pub broadcast proof fn lemma_first_true_props(s: Seq<bool>)
    ensures
        (#[trigger] spec_first_true(s)) is None <==> (forall|i: int| 0 <= i < s.len() ==> !s[i]),
        spec_first_true(s) matches Option::Some(i) ==> 0 <= i < s.len() && s[i] && forall|k: int|
            0 <= k < i ==> !s[k],
    decreases s.len(),
{
    if s.len() > 0 {
        lemma_first_true_props(s.drop_first());
        if !s[0] {
            if spec_first_true(s.drop_first()) is None {
                assert forall|i: int| 0 <= i < s.len() implies !s[i] by {
                    if i > 0 {
                        assert(!s.drop_first()[i - 1]);
                        assert(s[i] == s.drop_first()[i - 1]);
                    }
                }
            } else {
                let w = spec_first_true(s.drop_first())->0;
                assert(s.drop_first()[w]);
                assert(s[w + 1] == s.drop_first()[w]);
            }
            match spec_first_true(s.drop_first()) {
                Option::Some(ti) => {
                    assert(s[ti + 1] == s.drop_first()[ti]);
                    assert forall|k: int| 0 <= k < ti + 1 implies !s[k] by {
                        if k > 0 {
                            assert(!s.drop_first()[k - 1]);
                            assert(s[k] == s.drop_first()[k - 1]);
                        }
                    }
                },
                Option::None => {},
            }
        }
    }
}

/// The base of the probed port range.
pub const PORT_PROBE_BASE: i16 = 9000;

/// How many consecutive ports are probed.
pub const PORT_PROBE_COUNT: usize = 10;

/// The candidate proxy ports, in the order they are probed.
#[verifier::loop_isolation(false)]
pub fn candidate_ports() -> (r: Vec<i16>)
    ensures
        r@.len() == PORT_PROBE_COUNT,
        forall|i: int| 0 <= i < r@.len() ==> r@[i] == PORT_PROBE_BASE + i,
{
    let mut ports: Vec<i16> = Vec::new();
    let mut i: usize = 0;
    while i < PORT_PROBE_COUNT
        invariant
            i <= PORT_PROBE_COUNT,
            ports@.len() == i,
            forall|k: int| 0 <= k < i ==> ports@[k] == PORT_PROBE_BASE + k,
        decreases PORT_PROBE_COUNT - i,
    {
        ports.push(PORT_PROBE_BASE + (i as i16));
        i = i + 1;
    }
    ports
}

/// The discovered port: the first candidate whose liveness probe
/// succeeded, `None` when the whole range was exhausted. `live[i]`
/// reports the probe of candidate `i`.
#[verifier::loop_isolation(false)]
pub fn first_live_port(live: &Vec<bool>) -> (r: Option<i16>)
    requires
        live@.len() == PORT_PROBE_COUNT,
    ensures
        match r {
            Option::Some(p) => spec_first_true(live@) matches Option::Some(i) && p
                == PORT_PROBE_BASE + i,
            Option::None => spec_first_true(live@) is None,
        },
{
    proof {
        broadcast use lemma_first_true_props;

    }
    let n = live.len();
    let mut i: usize = 0;
    while i < n
        invariant
            i <= n,
            forall|k: int| 0 <= k < i ==> !live@[k],
        decreases n - i,
    {
        if live[i] {
            proof {
                lemma_first_true_skip(live@, i as int);
                assert(live@.skip(i as int)[0] == live@[i as int]);
            }
            return Option::Some(PORT_PROBE_BASE + (i as i16));
        }
        i = i + 1;
    }
    Option::None
}

proof fn lemma_first_true_skip(s: Seq<bool>, j: int)
    requires
        0 <= j <= s.len(),
        forall|k: int| 0 <= k < j ==> !s[k],
    ensures
        spec_first_true(s) == match spec_first_true(s.skip(j)) {
            Option::Some(i) => Option::Some(i + j),
            Option::None => Option::None::<int>,
        },
    decreases j,
{
    if j > 0 {
        lemma_first_true_skip(s, j - 1);
        assert(s.skip(j - 1).len() > 0);
        assert(s.skip(j - 1)[0] == s[j - 1]);
        assert(s.skip(j - 1).drop_first() =~= s.skip(j));
    } else {
        assert(s.skip(0) =~= s);
    }
}

} // verus!
