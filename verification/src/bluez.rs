//! What the BlueZ transport decides from BlueZ's object tree: which paired
//! device is the R10, where its two MultiLink characteristics live, and the
//! BLE address in a device path. The D-Bus calls themselves are made by the
//! caller, which hands over the objects as plain values.

use vstd::prelude::*;
use crate::text::{chars_of, string_of_chars};

verus! {

/// Full UUID for characteristic 6A4E2810 (bidirectional: register + notifications).
pub const CHAR_2810_UUID: &'static str = "6a4e2810-667b-11e3-949a-0800200c9a66";
/// Full UUID for characteristic 6A4E2820 (write-only: GFDI data).
pub const CHAR_2820_UUID: &'static str = "6a4e2820-667b-11e3-949a-0800200c9a66";
/// R10 device name as reported by BLE advertisement.
pub const R10_DEVICE_NAME: &'static str = "Approach R10";

// ── Device paths ──

/// Index of the last `'/'` in `s`, if any.
pub open spec fn last_slash(s: Seq<char>) -> Option<int>
    decreases s.len(),
{
    if s.len() == 0 {
        None
    } else if s.last() == '/' {
        Some(s.len() - 1)
    } else {
        last_slash(s.drop_last())
    }
}

/// The part of `s` after its last `'/'` (all of it when it holds none).
pub open spec fn last_segment(s: Seq<char>) -> Seq<char> {
    match last_slash(s) {
        None => s,
        Some(i) => s.skip(i + 1),
    }
}

/// The BLE address in a BlueZ device path: the last path segment without its
/// `dev_` prefix, with every `'_'` turned into `':'`; empty when the segment
/// does not start with `dev_`.
pub open spec fn address_spec(path: Seq<char>) -> Seq<char> {
    let seg = last_segment(path);
    if seg.len() >= 4 && seg.take(4) == seq!['d', 'e', 'v', '_'] {
        seg.skip(4).map_values(|c: char| if c == '_' { ':' } else { c })
    } else {
        Seq::empty()
    }
}

proof fn lemma_last_slash(s: Seq<char>)
    ensures
        match last_slash(s) {
            None => forall|j: int| 0 <= j < s.len() ==> s[j] != '/',
            Some(i) => 0 <= i < s.len() && s[i] == '/' && forall|j: int| i < j < s.len() ==> s[j] != '/',
        },
    decreases s.len(),
{
    if s.len() > 0 && s.last() != '/' {
        let t = s.drop_last();
        lemma_last_slash(t);
        assert forall|j: int| 0 <= j < t.len() implies t[j] == s[j] by {}
    }
}

/// Extract BLE address from a BlueZ D-Bus path.
/// `/org/bluez/hci0/dev_F5_D1_88_F6_90_5D` → `F5:D1:88:F6:90:5D`
pub fn address_from_path(path: &str) -> (r: String)
    ensures
        r@ == address_spec(path@),
{
    let cs = chars_of(path);
    let ghost s = cs@;
    // Find the start of the last segment.
    let mut i: usize = cs.len();
    while i > 0 && cs[i - 1] != '/'
        invariant
            i <= s.len(),
            s == cs@,
            forall|j: int| i <= j < s.len() ==> s[j] != '/',
        decreases i,
    {
        i -= 1;
    }
    proof {
        lemma_last_slash(s);
        if i == 0 {
            assert(last_slash(s) is None) by {
                if let Some(k) = last_slash(s) {
                    assert(s[k] == '/');
                }
            }
            assert(s.skip(0) =~= s);
        } else {
            assert(last_slash(s) == Some(i - 1)) by {
                match last_slash(s) {
                    None => { assert(s[i - 1] == '/'); },
                    Some(k) => {
                        if k < i - 1 {
                            assert(s[i - 1] == '/');
                        }
                    },
                }
            }
        }
    }
    let ghost seg = last_segment(s);
    assert(seg =~= s.skip(i as int));
    let mut out: Vec<char> = Vec::new();
    if cs.len() - i >= 4 && cs[i] == 'd' && cs[i + 1] == 'e' && cs[i + 2] == 'v' && cs[i + 3] == '_' {
        assert(seg.take(4) =~= seq!['d', 'e', 'v', '_']);
        let mut k: usize = i + 4;
        while k < cs.len()
            invariant
                i + 4 <= k <= s.len(),
                s == cs@,
                seg == s.skip(i as int),
                out@ =~= seg.skip(4).take(k - i - 4).map_values(|c: char| if c == '_' { ':' } else { c }),
            decreases cs.len() - k,
        {
            let c = cs[k];
            if c == '_' {
                out.push(':');
            } else {
                out.push(c);
            }
            proof {
                assert(seg.skip(4).take(k + 1 - i - 4) =~= seg.skip(4).take(k - i - 4).push(c));
            }
            k += 1;
        }
        assert(seg.skip(4).take(k - i - 4) =~= seg.skip(4));
    } else {
        assert(!(seg.len() >= 4 && seg.take(4) == seq!['d', 'e', 'v', '_'])) by {
            if seg.len() >= 4 && seg.take(4) == seq!['d', 'e', 'v', '_'] {
                assert(seg.take(4)[0] == cs@[i as int]);
                assert(seg.take(4)[1] == cs@[i + 1]);
                assert(seg.take(4)[2] == cs@[i + 2]);
                assert(seg.take(4)[3] == cs@[i + 3]);
            }
        }
        assert(out@ =~= Seq::<char>::empty());
    }
    string_of_chars(out)
}

// ── Matching strings ──

/// The code of `c` with ASCII upper-case letters taken to lower case.
pub open spec fn ascii_lower(c: char) -> u32 {
    if 65 <= (c as u32) <= 90 { ((c as u32) + 32) as u32 } else { c as u32 }
}

/// Equality up to ASCII case, character by character.
pub open spec fn eq_ignore_ascii_case(a: Seq<char>, b: Seq<char>) -> bool {
    a.len() == b.len() && forall|i: int| 0 <= i < a.len() ==> ascii_lower(#[trigger] a[i]) == ascii_lower(b[i])
}

/// Whether `p` starts with `prefix`.
pub open spec fn has_prefix(p: Seq<char>, prefix: Seq<char>) -> bool {
    prefix.len() <= p.len() && p.take(prefix.len() as int) == prefix
}

fn lower_code(c: char) -> (r: u32)
    ensures
        r == ascii_lower(c),
{
    let v = c as u32;
    if 65 <= v && v <= 90 { v + 32 } else { v }
}

fn same_ignoring_case(a: &Vec<char>, b: &Vec<char>) -> (r: bool)
    ensures
        r == eq_ignore_ascii_case(a@, b@),
{
    if a.len() != b.len() {
        return false;
    }
    let mut i: usize = 0;
    while i < a.len()
        invariant
            i <= a@.len(),
            a@.len() == b@.len(),
            forall|j: int| 0 <= j < i ==> ascii_lower(#[trigger] a@[j]) == ascii_lower(b@[j]),
        decreases a.len() - i,
    {
        if lower_code(a[i]) != lower_code(b[i]) {
            return false;
        }
        i += 1;
    }
    true
}

fn same_chars(a: &Vec<char>, b: &Vec<char>) -> (r: bool)
    ensures
        r == (a@ == b@),
{
    if a.len() != b.len() {
        return false;
    }
    let mut i: usize = 0;
    while i < a.len()
        invariant
            i <= a@.len(),
            a@.len() == b@.len(),
            forall|j: int| 0 <= j < i ==> a@[j] == b@[j],
        decreases a.len() - i,
    {
        if a[i] != b[i] {
            return false;
        }
        i += 1;
    }
    assert(a@ =~= b@);
    true
}

fn starts_with(p: &Vec<char>, prefix: &Vec<char>) -> (r: bool)
    ensures
        r == has_prefix(p@, prefix@),
{
    if prefix.len() > p.len() {
        return false;
    }
    let mut i: usize = 0;
    while i < prefix.len()
        invariant
            i <= prefix@.len() <= p@.len(),
            forall|j: int| 0 <= j < i ==> p@[j] == prefix@[j],
        decreases prefix.len() - i,
    {
        if p[i] != prefix[i] {
            assert(p@.take(prefix@.len() as int)[i as int] != prefix@[i as int]);
            return false;
        }
        i += 1;
    }
    assert(p@.take(prefix@.len() as int) =~= prefix@);
    true
}

// ── Finding the R10 ──

/// A BlueZ object that carries the `org.bluez.Device1` interface: its path
/// and the `Name`, `Paired` and `Address` properties (a property that is
/// absent or of another type is `None`, or `false`).
pub struct DeviceEntry {
    pub path: String,
    pub name: Option<String>,
    pub paired: bool,
    pub address: Option<String>,
}

/// Whether a device is a paired R10.
pub open spec fn is_paired_r10(d: DeviceEntry) -> bool {
    &&& d.paired
    &&& d.name matches Some(n) && n@ == R10_DEVICE_NAME@
}

/// The address property of a device, or the empty string.
pub open spec fn address_or_empty(d: DeviceEntry) -> Seq<char> {
    match d.address {
        Some(a) => a@,
        None => Seq::empty(),
    }
}

/// Find a paired Garmin R10 among the devices, in the order given.
/// Returns `(device_path, ble_address)` of the first one, or `None`.
pub fn select_r10(devices: &Vec<DeviceEntry>) -> (r: Option<(String, String)>)
    ensures
        match r {
            None => forall|i: int| 0 <= i < devices@.len() ==> !is_paired_r10(#[trigger] devices@[i]),
            Some((path, address)) => exists|i: int|
                0 <= i < devices@.len()
                && is_paired_r10(#[trigger] devices@[i])
                && (forall|j: int| 0 <= j < i ==> !is_paired_r10(#[trigger] devices@[j]))
                && path@ == devices@[i].path@
                && address@ == address_or_empty(devices@[i]),
        },
{
    let wanted = chars_of(R10_DEVICE_NAME);
    let mut i: usize = 0;
    while i < devices.len()
        invariant
            i <= devices@.len(),
            wanted@ == R10_DEVICE_NAME@,
            forall|j: int| 0 <= j < i ==> !is_paired_r10(#[trigger] devices@[j]),
        decreases devices.len() - i,
    {
        let d = &devices[i];
        let is_r10 = match &d.name {
            Some(n) => d.paired && same_chars(&chars_of(n.as_str()), &wanted),
            None => false,
        };
        if is_r10 {
            let address = match &d.address {
                Some(a) => a.clone(),
                None => string_of_chars(Vec::new()),
            };
            proof {
                assert(is_paired_r10(devices@[i as int]));
            }
            return Some((d.path.clone(), address));
        }
        i += 1;
    }
    None
}

// ── Finding the characteristics ──

/// A BlueZ object that carries the `org.bluez.GattCharacteristic1`
/// interface and a `UUID` string property: its path and that UUID.
pub struct CharEntry {
    pub path: String,
    pub uuid: String,
}

/// Whether a characteristic lies under `device_path` and has `uuid` (up to
/// ASCII case).
pub open spec fn char_matches(c: CharEntry, device_path: Seq<char>, uuid: Seq<char>) -> bool {
    has_prefix(c.path@, device_path) && eq_ignore_ascii_case(c.uuid@, uuid)
}

/// Index of the last characteristic among the first `n` that matches.
pub open spec fn last_match(cs: Seq<CharEntry>, n: int, device_path: Seq<char>, uuid: Seq<char>) -> Option<int>
    decreases n,
{
    if n <= 0 {
        None
    } else if char_matches(cs[n - 1], device_path, uuid) {
        Some(n - 1)
    } else {
        last_match(cs, n - 1, device_path, uuid)
    }
}

/// The path of the last matching characteristic, if any.
pub open spec fn match_path(cs: Seq<CharEntry>, device_path: Seq<char>, uuid: Seq<char>) -> Option<Seq<char>> {
    match last_match(cs, cs.len() as int, device_path, uuid) {
        None => None,
        Some(i) => Some(cs[i].path@),
    }
}

/// A path as plain characters.
pub open spec fn path_view(p: Option<String>) -> Option<Seq<char>> {
    match p {
        None => None,
        Some(s) => Some(s@),
    }
}

/// Find the D-Bus paths of the two MultiLink characteristics (2810, 2820)
/// under the device, among the characteristics in the order given; where
/// several match, the last one counts.
pub fn select_characteristics(device_path: &str, chars: &Vec<CharEntry>) -> (r: (Option<String>, Option<String>))
    ensures
        path_view(r.0) == match_path(chars@, device_path@, CHAR_2810_UUID@),
        path_view(r.1) == match_path(chars@, device_path@, CHAR_2820_UUID@),
{
    let dev = chars_of(device_path);
    let u2810 = chars_of(CHAR_2810_UUID);
    let u2820 = chars_of(CHAR_2820_UUID);
    let mut path_2810: Option<String> = None;
    let mut path_2820: Option<String> = None;
    let mut i: usize = 0;
    while i < chars.len()
        invariant
            i <= chars@.len(),
            dev@ == device_path@,
            u2810@ == CHAR_2810_UUID@,
            u2820@ == CHAR_2820_UUID@,
            path_view(path_2810) == (match last_match(chars@, i as int, dev@, u2810@) {
                None => None,
                Some(k) => Some(chars@[k].path@),
            }),
            path_view(path_2820) == (match last_match(chars@, i as int, dev@, u2820@) {
                None => None,
                Some(k) => Some(chars@[k].path@),
            }),
        decreases chars.len() - i,
    {
        let c = &chars[i];
        let p = chars_of(c.path.as_str());
        if starts_with(&p, &dev) {
            let u = chars_of(c.uuid.as_str());
            if same_ignoring_case(&u, &u2810) {
                path_2810 = Some(c.path.clone());
                proof {
                    // A characteristic matching 2810 does not match 2820:
                    // the two UUIDs differ at their seventh character.
                    reveal_strlit("6a4e2810-667b-11e3-949a-0800200c9a66");
                    reveal_strlit("6a4e2820-667b-11e3-949a-0800200c9a66");
                    assert(ascii_lower(u@[6]) == ascii_lower(u2810@[6]));
                    assert(u2810@[6] == '1');
                    assert(u2820@[6] == '2');
                    if eq_ignore_ascii_case(u@, u2820@) {
                        assert(ascii_lower(u@[6]) == ascii_lower(u2820@[6]));
                    }
                }
            } else if same_ignoring_case(&u, &u2820) {
                path_2820 = Some(c.path.clone());
            }
        }
        i += 1;
    }
    (path_2810, path_2820)
}

} // verus!
