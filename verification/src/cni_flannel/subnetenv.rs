//! The file in which the daemon writes down the subnet of its node.

use vstd::prelude::*;
use vstd::string::*;

use crate::number;
use crate::text;

verus! {

/// The contents of the file.
#[derive(Debug, PartialEq)]
pub struct SubnetEnv {
    pub network: String,
    pub subnet: String,
    pub mtu: u32,
    pub ipmasq: bool,
}

/// The model of `SubnetEnv`.
pub struct EnvView {
    pub network: Seq<char>,
    pub subnet: Seq<char>,
    pub mtu: u32,
    pub ipmasq: bool,
}

impl View for SubnetEnv {
    type V = EnvView;

    open spec fn view(&self) -> EnvView {
        EnvView {
            network: self.network@,
            subnet: self.subnet@,
            mtu: self.mtu,
            ipmasq: self.ipmasq,
        }
    }
}

/// What is known after some lines.
pub struct Found {
    pub network: Option<Seq<char>>,
    pub subnet: Option<Seq<char>>,
    pub mtu: Option<u32>,
    pub ipmasq: Option<bool>,
}

/// What is known before the first line.
pub open spec fn nothing() -> Found {
    Found { network: None, subnet: None, mtu: None, ipmasq: None }
}

/// What is known after one more line, which is empty or gives a key a value;
/// a later value takes the place of an earlier one, and unknown keys are
/// ignored.
pub open spec fn read_line(f: Found, line: Seq<char>) -> Result<Found, Seq<char>> {
    let t = text::trimmed(line);
    let at = text::find(t, '=');
    if t.len() == 0 {
        Ok(f)
    } else if at >= t.len() {
        Err("malformed line: "@ + t)
    } else {
        let key = text::trimmed(t.take(at));
        let value = text::trimmed(t.skip(at + 1));
        if key == "FLANNEL_NETWORK"@ {
            Ok(Found { network: Some(value), ..f })
        } else if key == "FLANNEL_SUBNET"@ {
            Ok(Found { subnet: Some(value), ..f })
        } else if key == "FLANNEL_MTU"@ {
            match number::number(value, 10, u32::MAX as nat) {
                Ok(n) => Ok(Found { mtu: Some(n as u32), ..f }),
                Err(e) => Err(number::fault_text(e)),
            }
        } else if key == "FLANNEL_IPMASQ"@ {
            Ok(Found { ipmasq: Some(value == "true"@), ..f })
        } else {
            Ok(f)
        }
    }
}

/// What is known after lines in order, or the first error among them.
pub open spec fn read_lines(f: Found, lines: Seq<Seq<char>>) -> Result<Found, Seq<char>>
    decreases lines.len(),
{
    if lines.len() == 0 {
        Ok(f)
    } else {
        match read_line(f, lines[0]) {
            Err(e) => Err(e),
            Ok(f) => read_lines(f, lines.skip(1)),
        }
    }
}

/// The contents of the file with that text. The masquerading flag is false
/// where it is absent; the rest has to be there.
pub open spec fn env_of(s: Seq<char>) -> Result<EnvView, Seq<char>> {
    match read_lines(nothing(), text::lines(s)) {
        Err(e) => Err(e),
        Ok(f) => match (f.network, f.subnet, f.mtu) {
            (None, _, _) => Err("missing FLANNEL_NETWORK"@),
            (_, None, _) => Err("missing FLANNEL_SUBNET"@),
            (_, _, None) => Err("missing FLANNEL_MTU"@),
            (Some(network), Some(subnet), Some(mtu)) => Ok(
                EnvView { network, subnet, mtu, ipmasq: f.ipmasq.unwrap_or(false) },
            ),
        },
    }
}

/// The model of what was read.
pub open spec fn env_result(r: Result<SubnetEnv, String>) -> Result<EnvView, Seq<char>> {
    match r {
        Ok(e) => Ok(e@),
        Err(e) => Err(e@),
    }
}

impl SubnetEnv {
    /// Reads the text of the file.
    pub fn parse(s: &str) -> (r: Result<SubnetEnv, String>)
        ensures
            env_result(r) == env_of(s@),
    {
        let lines = text::lines_of(s);
        let ghost all = text::lines(s@);
        let mut network: Option<String> = None;
        let mut subnet: Option<String> = None;
        let mut mtu: Option<u32> = None;
        let mut ipmasq: Option<bool> = None;
        let mut i: usize = 0;
        let ghost mut found = nothing();
        assert(all.skip(0) =~= all);
        while i < lines.len()
            invariant
                i <= lines@.len(),
                all == text::lines(s@),
                all == text::texts(lines@),
                found == (Found {
                    network: text::opt_text(network),
                    subnet: text::opt_text(subnet),
                    mtu,
                    ipmasq,
                }),
                read_lines(nothing(), all) == read_lines(found, all.skip(i as int)),
            decreases lines@.len() - i,
        {
            let line = text::trim(lines[i].as_str());
            proof {
                assert(all.skip(i as int)[0] == lines@[i as int]@);
                assert(all.skip(i as int).skip(1) =~= all.skip(i + 1));
            }
            i = i + 1;
            if line.as_str().is_empty() {
                continue;
            }
            let v = text::chars(line.as_str());
            let at: usize = text::find_from(&v, 0, '=');
            assert(v@.skip(0) =~= v@);
            if at >= v.len() {
                return Err(text::join2("malformed line: ", line.as_str()));
            }
            let key = text::trim(text::slice_text(&v, 0, at).as_str());
            let value = text::trim(text::slice_text(&v, at + 1, v.len()).as_str());
            proof {
                assert(v@.subrange(0, at as int) =~= line@.take(at as int));
                assert(v@.subrange(at + 1, v@.len() as int) =~= line@.skip(at + 1));
                match read_line(found, all[i - 1]) {
                    Ok(f) => {
                        found = f;
                    },
                    Err(_) => {},
                }
            }
            if text::same(key.as_str(), "FLANNEL_NETWORK") {
                network = Some(value);
            } else if text::same(key.as_str(), "FLANNEL_SUBNET") {
                subnet = Some(value);
            } else if text::same(key.as_str(), "FLANNEL_MTU") {
                match number::read_number(value.as_str(), 10, 0xffff_ffff) {
                    Ok(n) => {
                        mtu = Some(n);
                    },
                    Err(e) => {
                        return Err(e.message());
                    },
                }
            } else if text::same(key.as_str(), "FLANNEL_IPMASQ") {
                ipmasq = Some(text::same(value.as_str(), "true"));
            }
        }
        match (network, subnet, mtu) {
            (None, _, _) => Err("missing FLANNEL_NETWORK".to_owned()),
            (Some(_), None, _) => Err("missing FLANNEL_SUBNET".to_owned()),
            (Some(_), Some(_), None) => Err("missing FLANNEL_MTU".to_owned()),
            (Some(network), Some(subnet), Some(mtu)) => {
                let ipmasq = match ipmasq {
                    Some(b) => b,
                    None => false,
                };
                Ok(SubnetEnv { network, subnet, mtu, ipmasq })
            },
        }
    }
}

// ---------------------------------------------------------------------------
// Laws
// ---------------------------------------------------------------------------

/// Whether a line gives a key a value: they stand on the two sides of its first
/// equals sign, with white space around them or not.
pub open spec fn gives(line: Seq<char>, key: Seq<char>, value: Seq<char>) -> bool {
    let t = text::trimmed(line);
    let at = text::find(t, '=');
    at < t.len() && text::trimmed(t.take(at)) == key && text::trimmed(t.skip(at + 1)) == value
}

/// Whether lines give a key no value.
pub open spec fn none_gives(lines: Seq<Seq<char>>, key: Seq<char>) -> bool {
    forall|i: int, value: Seq<char>|
        0 <= i < lines.len() ==> !#[trigger] gives(lines[i], key, value)
}

/// Whether a value is the last that lines give a key.
pub open spec fn is_last_given(lines: Seq<Seq<char>>, key: Seq<char>, value: Seq<char>) -> bool {
    exists|i: int|
        0 <= i < lines.len() && #[trigger] gives(lines[i], key, value) && none_gives(
            lines.skip(i + 1),
            key,
        )
}

proof fn lemma_last_given(lines: Seq<Seq<char>>, key: Seq<char>, value: Seq<char>)
    requires
        lines.len() > 0,
    ensures
        is_last_given(lines.skip(1), key, value) ==> is_last_given(lines, key, value),
        none_gives(lines.skip(1), key) && gives(lines[0], key, value) ==> is_last_given(
            lines,
            key,
            value,
        ),
        none_gives(lines.skip(1), key) && (forall|v: Seq<char>| !#[trigger] gives(lines[0], key, v))
            ==> none_gives(lines, key),
{
    let rest = lines.skip(1);
    if is_last_given(rest, key, value) {
        let i = choose|i: int|
            0 <= i < rest.len() && #[trigger] gives(rest[i], key, value) && none_gives(
                rest.skip(i + 1),
                key,
            );
        assert(rest[i] == lines[i + 1]);
        assert(rest.skip(i + 1) =~= lines.skip(i + 1 + 1));
    }
    if none_gives(rest, key) && (forall|v: Seq<char>| !#[trigger] gives(lines[0], key, v)) {
        assert forall|i: int, v: Seq<char>| 0 <= i < lines.len() implies !#[trigger] gives(
            lines[i],
            key,
            v,
        ) by {
            if i > 0 {
                assert(rest[i - 1] == lines[i]);
                assert(!gives(rest[i - 1], key, v));
            }
        }
    }
}

/// What is known of a text after lines: the last value that they give its key, or
/// what was known before where they give none.
spec fn follows(
    lines: Seq<Seq<char>>,
    key: Seq<char>,
    before: Option<Seq<char>>,
    after: Option<Seq<char>>,
) -> bool {
    (after is Some && is_last_given(lines, key, after->0)) || (none_gives(lines, key) && after
        == before)
}

spec fn follows_number(
    lines: Seq<Seq<char>>,
    before: Option<u32>,
    after: Option<u32>,
) -> bool {
    (after is Some && exists|v: Seq<char>| #[trigger]
        is_last_given(lines, "FLANNEL_MTU"@, v) && number::number(v, 10, u32::MAX as nat) == Ok::<
            nat,
            number::NumberFault,
        >(after->0 as nat)) || (none_gives(lines, "FLANNEL_MTU"@) && after == before)
}

spec fn follows_flag(
    lines: Seq<Seq<char>>,
    before: Option<bool>,
    after: Option<bool>,
) -> bool {
    (after is Some && exists|v: Seq<char>| #[trigger]
        is_last_given(lines, "FLANNEL_IPMASQ"@, v) && after->0 == (v == "true"@)) || (none_gives(
        lines,
        "FLANNEL_IPMASQ"@,
    ) && after == before)
}

proof fn lemma_keys_differ()
    ensures
        "FLANNEL_NETWORK"@ != "FLANNEL_SUBNET"@ && "FLANNEL_NETWORK"@ != "FLANNEL_MTU"@,
        "FLANNEL_NETWORK"@ != "FLANNEL_IPMASQ"@ && "FLANNEL_SUBNET"@ != "FLANNEL_MTU"@,
        "FLANNEL_SUBNET"@ != "FLANNEL_IPMASQ"@ && "FLANNEL_MTU"@ != "FLANNEL_IPMASQ"@,
{
    reveal_strlit("FLANNEL_NETWORK");
    reveal_strlit("FLANNEL_SUBNET");
    reveal_strlit("FLANNEL_MTU");
    reveal_strlit("FLANNEL_IPMASQ");
    assert("FLANNEL_NETWORK"@[8] == 'N' && "FLANNEL_SUBNET"@[8] == 'S' && "FLANNEL_MTU"@[8] == 'M'
        && "FLANNEL_IPMASQ"@[8] == 'I');
}

proof fn lemma_read_lines(f: Found, lines: Seq<Seq<char>>, g: Found)
    requires
        read_lines(f, lines) == Ok::<Found, Seq<char>>(g),
    ensures
        follows(lines, "FLANNEL_NETWORK"@, f.network, g.network),
        follows(lines, "FLANNEL_SUBNET"@, f.subnet, g.subnet),
        follows_number(lines, f.mtu, g.mtu),
        follows_flag(lines, f.ipmasq, g.ipmasq),
    decreases lines.len(),
{
    lemma_keys_differ();
    if lines.len() > 0 {
        let h = read_line(f, lines[0])->Ok_0;
        let rest = lines.skip(1);
        lemma_read_lines(h, rest, g);
        let t = text::trimmed(lines[0]);
        let at = text::find(t, '=');
        let key = text::trimmed(t.take(at));
        let value = text::trimmed(t.skip(at + 1));
        number::lemma_number_bound(value, 10, u32::MAX as nat);
        lemma_last_given(lines, "FLANNEL_NETWORK"@, value);
        lemma_last_given(lines, "FLANNEL_SUBNET"@, value);
        lemma_last_given(lines, "FLANNEL_MTU"@, value);
        lemma_last_given(lines, "FLANNEL_IPMASQ"@, value);
        if g.network is Some {
            lemma_last_given(lines, "FLANNEL_NETWORK"@, g.network->0);
        }
        if g.subnet is Some {
            lemma_last_given(lines, "FLANNEL_SUBNET"@, g.subnet->0);
        }
        if exists|v: Seq<char>| #[trigger] is_last_given(rest, "FLANNEL_MTU"@, v) {
            assert forall|v: Seq<char>| #[trigger]
                is_last_given(rest, "FLANNEL_MTU"@, v) implies is_last_given(
                lines,
                "FLANNEL_MTU"@,
                v,
            ) by {
                lemma_last_given(lines, "FLANNEL_MTU"@, v);
            }
        }
        if exists|v: Seq<char>| #[trigger] is_last_given(rest, "FLANNEL_IPMASQ"@, v) {
            assert forall|v: Seq<char>| #[trigger]
                is_last_given(rest, "FLANNEL_IPMASQ"@, v) implies is_last_given(
                lines,
                "FLANNEL_IPMASQ"@,
                v,
            ) by {
                lemma_last_given(lines, "FLANNEL_IPMASQ"@, v);
            }
        }
    }
}

/// What is read from the file is what its lines give: of each key the last value,
/// whatever other keys there are; and packets count as masqueraded exactly where
/// the last value of that key says so.
pub proof fn law_last_values_are_read(s: Seq<char>, e: EnvView)
    requires
        env_of(s) == Ok::<EnvView, Seq<char>>(e),
    ensures
        is_last_given(text::lines(s), "FLANNEL_NETWORK"@, e.network),
        is_last_given(text::lines(s), "FLANNEL_SUBNET"@, e.subnet),
        exists|v: Seq<char>| #[trigger]
            is_last_given(text::lines(s), "FLANNEL_MTU"@, v) && number::number(
                v,
                10,
                u32::MAX as nat,
            ) == Ok::<nat, number::NumberFault>(e.mtu as nat),
        e.ipmasq ==> is_last_given(text::lines(s), "FLANNEL_IPMASQ"@, "true"@),
        !e.ipmasq ==> none_gives(text::lines(s), "FLANNEL_IPMASQ"@) || exists|v: Seq<char>| #[trigger]
            is_last_given(text::lines(s), "FLANNEL_IPMASQ"@, v) && v != "true"@,
{
    lemma_read_lines(nothing(), text::lines(s), read_lines(nothing(), text::lines(s))->Ok_0);
}

} // verus!
