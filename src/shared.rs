//! Device identities and the in-memory authentication cache.

use std::collections::HashMap;
use vstd::prelude::*;
use vstd::arithmetic::power::pow;

verus! {

broadcast use vstd::std_specs::hash::group_hash_axioms;

/// What `uuid::Uuid::parse_str` makes of a text: the 128-bit value, or `None`
/// where the text is in none of the accepted layouts.
pub uninterp spec fn uuid_value(s: Seq<char>) -> Option<u128>;

/// The lower-case hexadecimal digit for `d` in `0..16`.
pub open spec fn hex_digit(d: int) -> char {
    seq!['0', '1', '2', '3', '4', '5', '6', '7', '8', '9', 'a', 'b', 'c', 'd', 'e', 'f'][d]
}

/// The `k`-th of the 32 nibbles of `v`, most significant first.
pub open spec fn nibble(v: u128, k: int) -> int {
    (v as int / pow(16, (31 - k) as nat)) % 16
}

/// The 32 lower-case hex digits of `v`, most significant first.
pub open spec fn hex_digits(v: u128) -> Seq<char> {
    Seq::new(32, |k: int| hex_digit(nibble(v, k)))
}

/// The hyphenated text of a UUID: groups of 8, 4, 4, 4 and 12 digits.
pub open spec fn hyphenated(v: u128) -> Seq<char> {
    let h = hex_digits(v);
    h.subrange(0, 8) + seq!['-'] + h.subrange(8, 12) + seq!['-'] + h.subrange(12, 16)
        + seq!['-'] + h.subrange(16, 20) + seq!['-'] + h.subrange(20, 32)
}

/// Relies on `uuid::Uuid::parse_str` (what `Uuid::from_str` calls): the value
/// it parses depends on the text alone.
#[verifier::external_body]
pub(crate) fn parse_uuid(s: &str) -> (r: Option<u128>)
    ensures
        r == uuid_value(s@),
{
    match uuid::Uuid::parse_str(s) {
        Ok(u) => Some(u.as_u128()),
        Err(_) => None,
    }
}

/// Relies on the `Display` impl of `uuid::Uuid`, which writes the lower-case
/// hyphenated form.
#[verifier::external_body]
pub(crate) fn uuid_text(v: u128) -> (r: String)
    ensures
        r@ == hyphenated(v),
{
    uuid::Uuid::from_u128(v).to_string()
}

/// Why a request is turned away.
#[derive(Debug, Clone, Copy, PartialEq, Eq, Structural)]
pub enum Failure {
    /// The token, facility or gateway is unknown.
    Authorization,
    /// The payload is malformed, or a write of it failed.
    Format,
}

impl Failure {
    /// The HTTP status that reports the failure.
    pub fn status(&self) -> (r: u16)
        ensures
            r == (match self {
                Failure::Authorization => 401u16,
                Failure::Format => 406u16,
            }),
    {
        match self {
            Failure::Authorization => 401,
            Failure::Format => 406,
        }
    }
}

/// A row of the device collection, as stored.
pub struct DBDevice {
    pub auth_token: String,
    pub serial_number: String,
}

/// Both identifiers of the row parse as UUIDs.
pub open spec fn device_parses(d: DBDevice) -> bool {
    uuid_value(d.auth_token@) is Some && uuid_value(d.serial_number@) is Some
}

/// Every row parses.
pub open spec fn devices_parse(rows: Seq<DBDevice>) -> bool {
    forall|i: int| 0 <= i < rows.len() ==> device_parses(#[trigger] rows[i])
}

/// The token to serial number map that the rows declare, a later row with
/// the same token replacing an earlier one.
pub open spec fn device_map(rows: Seq<DBDevice>) -> Map<u128, u128>
    decreases rows.len(),
{
    if rows.len() == 0 {
        Map::empty()
    } else {
        let d = rows.last();
        device_map(rows.drop_last()).insert(
            uuid_value(d.auth_token@)->Some_0,
            uuid_value(d.serial_number@)->Some_0,
        )
    }
}

/// Why the cache could not be built: the row at this index holds a token or
/// a serial number that is not a UUID.
#[derive(Debug, PartialEq, Eq, Structural)]
pub enum DeviceError {
    BadAuthToken(usize),
    BadSerialNumber(usize),
}

/// The authentication cache: each known device token mapped to the device's
/// serial number. Built once; read-only afterwards.
pub struct AppData {
    authed: HashMap<u128, u128>,
}

impl View for AppData {
    type V = Map<u128, u128>;

    closed spec fn view(&self) -> Map<u128, u128> {
        self.authed@
    }
}

impl AppData {
    /// Builds the cache from all device rows. Fails at the first row whose
    /// token, or else whose serial number, does not parse.
    pub fn new(rows: &Vec<DBDevice>) -> (r: Result<AppData, DeviceError>)
        ensures
            r is Ok <==> devices_parse(rows@),
            r matches Ok(c) ==> c@ == device_map(rows@),
            r matches Err(DeviceError::BadAuthToken(i)) ==> {
                &&& i < rows@.len()
                &&& devices_parse(rows@.take(i as int))
                &&& uuid_value(rows@[i as int].auth_token@) is None
            },
            r matches Err(DeviceError::BadSerialNumber(i)) ==> {
                &&& i < rows@.len()
                &&& devices_parse(rows@.take(i as int))
                &&& uuid_value(rows@[i as int].auth_token@) is Some
                &&& uuid_value(rows@[i as int].serial_number@) is None
            },
    {
        let mut authed: HashMap<u128, u128> = HashMap::new();
        let mut i: usize = 0;
        while i < rows.len()
            invariant
                i <= rows@.len(),
                devices_parse(rows@.take(i as int)),
                authed@ == device_map(rows@.take(i as int)),
            decreases rows.len() - i,
        {
            let row = &rows[i];
            let token = match parse_uuid(row.auth_token.as_str()) {
                Some(t) => t,
                None => return Err(DeviceError::BadAuthToken(i)),
            };
            let serial = match parse_uuid(row.serial_number.as_str()) {
                Some(s) => s,
                None => return Err(DeviceError::BadSerialNumber(i)),
            };
            authed.insert(token, serial);
            proof {
                let next = rows@.take(i + 1);
                assert(next.drop_last() == rows@.take(i as int));
                assert(next.last() == rows@[i as int]);
                assert forall|j: int| 0 <= j < next.len() implies device_parses(#[trigger] next[j]) by {
                    if j < i {
                        assert(next[j] == rows@.take(i as int)[j]);
                    }
                }
            }
            i = i + 1;
        }
        proof {
            assert(rows@.take(i as int) == rows@);
        }
        Ok(AppData { authed })
    }

    /// Whether the token belongs to a known device.
    pub fn auth_token_valid(&self, token: u128) -> (r: bool)
        ensures
            r == self@.contains_key(token),
    {
        self.authed.contains_key(&token)
    }

    /// The serial number of the device that holds the token, if any.
    pub fn get_serial_number(&self, token: u128) -> (r: Option<u128>)
        ensures
            r == (if self@.contains_key(token) { Some(self@[token]) } else { None::<u128> }),
    {
        match self.authed.get(&token) {
            Some(s) => Some(*s),
            None => None,
        }
    }
}

/// The texts of a sequence of strings.
pub open spec fn texts(v: Seq<String>) -> Seq<Seq<char>> {
    v.map_values(|s: String| s@)
}

/// Whether one of `names` equals `name`.
pub(crate) fn contains_text(names: &Vec<String>, name: &String) -> (r: bool)
    ensures
        r == texts(names@).contains(name@),
{
    let mut i: usize = 0;
    while i < names.len()
        invariant
            i <= names@.len(),
            forall|j: int| 0 <= j < i ==> names@[j]@ != name@,
        decreases names.len() - i,
    {
        if names[i] == *name {
            assert(texts(names@)[i as int] == name@);
            return true;
        }
        i = i + 1;
    }
    proof {
        if texts(names@).contains(name@) {
            let j = choose|j: int| 0 <= j < texts(names@).len() && texts(names@)[j] == name@;
            assert(names@[j]@ == name@);
        }
    }
    false
}

/// A device's token resolves to the serial number its row declares, unless
/// a later row declares the same token.
pub proof fn lemma_resolve_declared(rows: Seq<DBDevice>, i: int)
    requires
        devices_parse(rows),
        0 <= i < rows.len(),
        forall|j: int|
            i < j < rows.len() ==> uuid_value(#[trigger] rows[j].auth_token@) != uuid_value(
                rows[i].auth_token@,
            ),
    ensures
        device_map(rows).contains_key(uuid_value(rows[i].auth_token@)->Some_0),
        device_map(rows)[uuid_value(rows[i].auth_token@)->Some_0] == uuid_value(
            rows[i].serial_number@,
        )->Some_0,
    decreases rows.len(),
{
    let t = uuid_value(rows[i].auth_token@)->Some_0;
    let init = rows.drop_last();
    if i < rows.len() - 1 {
        assert(device_parses(rows[rows.len() - 1]));
        assert(device_parses(rows[i]));
        assert forall|j: int| 0 <= j < init.len() implies device_parses(#[trigger] init[j]) by {
            assert(init[j] == rows[j]);
        }
        assert forall|j: int| i < j < init.len() implies uuid_value(
            #[trigger] init[j].auth_token@,
        ) != uuid_value(init[i].auth_token@) by {
            assert(init[j] == rows[j]);
        }
        lemma_resolve_declared(init, i);
    }
}

/// A token that no row declares resolves to nothing.
pub proof fn lemma_unknown_token(rows: Seq<DBDevice>, token: u128)
    requires
        devices_parse(rows),
        forall|i: int| 0 <= i < rows.len() ==> uuid_value(#[trigger] rows[i].auth_token@) != Some(
            token,
        ),
    ensures
        !device_map(rows).contains_key(token),
    decreases rows.len(),
{
    if rows.len() > 0 {
        let init = rows.drop_last();
        assert(device_parses(rows[rows.len() - 1]));
        assert forall|j: int| 0 <= j < init.len() implies device_parses(#[trigger] init[j]) by {
            assert(init[j] == rows[j]);
        }
        assert forall|j: int| 0 <= j < init.len() implies uuid_value(
            #[trigger] init[j].auth_token@,
        ) != Some(token) by {
            assert(init[j] == rows[j]);
        }
        lemma_unknown_token(init, token);
    }
}

} // verus!
