//! The devices on the bus, as far as the user picks among them.

use vstd::prelude::*;

verus! {

/// A device on the bus.
#[derive(Debug, PartialEq, Eq)]
pub struct USBDevice {
    pub vendor_id: u16,
    pub product_id: u16,
    pub product_string: String,
    pub device_address: u8,
}

impl USBDevice {
    /// The device with these identifiers, at this address. One that gives
    /// no name is called `Unknown`.
    pub fn new(
        vendor_id: u16,
        product_id: u16,
        product_string: Option<&str>,
        device_address: u8,
    ) -> (r: Self)
        ensures
            r.vendor_id == vendor_id,
            r.product_id == product_id,
            r.device_address == device_address,
            r.product_string@ == match product_string {
                Some(name) => name@,
                None => "Unknown"@,
            },
    {
        USBDevice {
            vendor_id,
            product_id,
            product_string: String::from_str(
                match product_string {
                    Some(name) => name,
                    None => "Unknown",
                },
            ),
            device_address,
        }
    }

    /// Whether `other` is this device: it has the same identifiers and is
    /// at the same address. The name does not count.
    pub open spec fn same_as(self, other: USBDevice) -> bool {
        &&& self.vendor_id == other.vendor_id
        &&& self.product_id == other.product_id
        &&& self.device_address == other.device_address
    }

    /// Tells whether `other` is this device.
    pub fn is_same(&self, other: &USBDevice) -> (r: bool)
        ensures
            r == self.same_as(*other),
    {
        self.vendor_id == other.vendor_id && self.product_id == other.product_id
            && self.device_address == other.device_address
    }

    /// Finds this device among those that are on the bus now: the place of
    /// the first that is this device, or nothing where none is.
    pub fn find_among(&self, present: &Vec<USBDevice>) -> (r: Option<usize>)
        ensures
            r is None <==> forall|i: int| 0 <= i < present@.len() ==> !self.same_as(present@[i]),
            r matches Some(at) ==> at < present@.len() && self.same_as(present@[at as int])
                && forall|i: int| 0 <= i < at ==> !self.same_as(present@[i]),
    {
        let mut i: usize = 0;
        while i < present.len()
            invariant
                i <= present@.len(),
                forall|k: int| 0 <= k < i ==> !self.same_as(present@[k]),
            decreases present@.len() - i,
        {
            if self.is_same(&present[i]) {
                return Some(i);
            }
            i = i + 1;
        }
        None
    }
}

/// What is said of a device that is no longer on the bus.
pub fn not_found_message() -> (r: String)
    ensures
        r@ == "Device not found"@,
{
    String::from_str("Device not found")
}

impl Clone for USBDevice {
    fn clone(&self) -> (r: Self)
        ensures
            r == *self,
    {
        USBDevice {
            vendor_id: self.vendor_id,
            product_id: self.product_id,
            product_string: self.product_string.clone(),
            device_address: self.device_address,
        }
    }
}

/// Whether `a` comes before `b` as strings are ordered, or is `b`: at the
/// first place where they differ `a` has the smaller character, or `a` ends
/// before they differ.
pub open spec fn comes_before(a: Seq<char>, b: Seq<char>) -> bool
    decreases a.len(),
{
    if a.len() == 0 {
        true
    } else if b.len() == 0 {
        false
    } else if a[0] != b[0] {
        a[0] < b[0]
    } else {
        comes_before(a.drop_first(), b.drop_first())
    }
}

/// Compares two strings with `<=`, the order of `str`.
///
/// Trusted: strings are ordered lexicographically by their bytes, which is
/// the order of their characters by code point.
#[verifier::external_body]
fn not_after(a: &str, b: &str) -> (r: bool)
    ensures
        r == comes_before(a@, b@),
{
    a <= b
}

/// Of two strings one comes before the other, or they are the same.
proof fn lemma_order_total(a: Seq<char>, b: Seq<char>)
    ensures
        comes_before(a, b) || comes_before(b, a),
        comes_before(a, b) && comes_before(b, a) ==> a == b,
    decreases a.len(),
{
    if a.len() > 0 && b.len() > 0 && a[0] == b[0] {
        lemma_order_total(a.drop_first(), b.drop_first());
        if comes_before(a, b) && comes_before(b, a) {
            assert(a =~= seq![a[0]] + a.drop_first());
            assert(b =~= seq![b[0]] + b.drop_first());
        }
    } else if a.len() == 0 && b.len() == 0 {
        assert(a =~= b);
    }
}

/// What comes before something that comes before a third comes before the
/// third.
proof fn lemma_order_transitive(a: Seq<char>, b: Seq<char>, c: Seq<char>)
    requires
        comes_before(a, b),
        comes_before(b, c),
    ensures
        comes_before(a, c),
    decreases a.len(),
{
    if a.len() > 0 && b.len() > 0 && c.len() > 0 && a[0] == b[0] && b[0] == c[0] {
        lemma_order_transitive(a.drop_first(), b.drop_first(), c.drop_first());
    }
}

/// Whether `sorted` is `devices` put in the order of their names, with
/// `order` telling for each place in `sorted` the place in `devices` that
/// its device had: every device is there once, the names do not go down,
/// and devices of one name are in the order that they had.
pub open spec fn is_sorted_by_name(
    devices: Seq<USBDevice>,
    sorted: Seq<USBDevice>,
    order: Seq<int>,
) -> bool {
    &&& sorted.len() == devices.len()
    &&& order.len() == devices.len()
    &&& forall|i: int| 0 <= i < order.len() ==> 0 <= #[trigger] order[i] < devices.len()
    &&& forall|i: int, j: int| 0 <= i < j < order.len() ==> #[trigger] order[i] != #[trigger] order[j]
    &&& forall|i: int| 0 <= i < sorted.len() ==> #[trigger] sorted[i] == devices[order[i]]
    &&& forall|i: int, j: int|
        0 <= i < j < sorted.len() ==> comes_before(
            (#[trigger] sorted[i]).product_string@,
            (#[trigger] sorted[j]).product_string@,
        )
    &&& forall|i: int, j: int|
        0 <= i < j < sorted.len() && sorted[i].product_string@ == sorted[j].product_string@
            ==> #[trigger] order[i] < #[trigger] order[j]
}

/// Putting device `k` into the sorted first `k` devices, behind all that do
/// not come after it and before all that do, sorts the first `k + 1`.
proof fn lemma_insert_keeps_sorted(
    devices: Seq<USBDevice>,
    sorted: Seq<USBDevice>,
    order: Seq<int>,
    k: int,
    at: int,
)
    requires
        0 <= k < devices.len(),
        0 <= at <= sorted.len(),
        is_sorted_by_name(devices.take(k), sorted, order),
        forall|i: int|
            0 <= i < at ==> comes_before(
                (#[trigger] sorted[i]).product_string@,
                devices[k].product_string@,
            ),
        forall|i: int|
            at <= i < sorted.len() ==> !comes_before(
                (#[trigger] sorted[i]).product_string@,
                devices[k].product_string@,
            ),
    ensures
        is_sorted_by_name(devices.take(k + 1), sorted.insert(at, devices[k]), order.insert(at, k)),
{
    let name = devices[k].product_string@;
    let next = sorted.insert(at, devices[k]);
    let places = order.insert(at, k);
    assert forall|i: int| 0 <= i < places.len() implies 0 <= #[trigger] places[i] < k + 1 by {
        if i < at {
            assert(places[i] == order[i]);
        } else if i > at {
            assert(places[i] == order[i - 1]);
        }
    }
    assert forall|i: int, j: int| 0 <= i < j < places.len() implies #[trigger] places[i]
        != #[trigger] places[j] by {
        let pi = if i < at {
            i
        } else {
            i - 1
        };
        let pj = if j < at {
            j
        } else {
            j - 1
        };
        if i != at && j != at {
            assert(places[i] == order[pi]);
            assert(places[j] == order[pj]);
        } else if i == at {
            assert(places[j] == order[pj]);
        } else {
            assert(places[i] == order[pi]);
        }
    }
    assert forall|i: int| 0 <= i < next.len() implies #[trigger] next[i] == devices.take(k + 1)[places[i]] by {
        if i < at {
            assert(next[i] == sorted[i]);
            assert(places[i] == order[i]);
            assert(devices.take(k)[order[i]] == devices.take(k + 1)[order[i]]);
        } else if i > at {
            assert(next[i] == sorted[i - 1]);
            assert(places[i] == order[i - 1]);
            assert(devices.take(k)[order[i - 1]] == devices.take(k + 1)[order[i - 1]]);
        }
    }
    assert forall|i: int, j: int| 0 <= i < j < next.len() implies comes_before(
        (#[trigger] next[i]).product_string@,
        (#[trigger] next[j]).product_string@,
    ) by {
        if j < at {
            assert(next[i] == sorted[i] && next[j] == sorted[j]);
        } else if i > at {
            assert(next[i] == sorted[i - 1] && next[j] == sorted[j - 1]);
        } else if i == at {
            assert(next[j] == sorted[j - 1]);
            lemma_order_total(sorted[j - 1].product_string@, name);
        } else if j == at {
            assert(next[i] == sorted[i]);
        } else {
            assert(next[i] == sorted[i] && next[j] == sorted[j - 1]);
            lemma_order_total(sorted[j - 1].product_string@, name);
            lemma_order_transitive(sorted[i].product_string@, name, sorted[j - 1].product_string@);
        }
    }
    assert forall|i: int, j: int|
        0 <= i < j < next.len() && next[i].product_string@
            == next[j].product_string@ implies #[trigger] places[i] < #[trigger] places[j] by {
        if j < at {
            assert(next[i] == sorted[i] && next[j] == sorted[j]);
            assert(places[i] == order[i] && places[j] == order[j]);
        } else if i > at {
            assert(next[i] == sorted[i - 1] && next[j] == sorted[j - 1]);
            assert(places[i] == order[i - 1] && places[j] == order[j - 1]);
        } else if i == at {
            assert(next[j] == sorted[j - 1]);
            lemma_order_total(name, name);
        } else if j == at {
            assert(places[i] == order[i]);
        } else {
            assert(next[i] == sorted[i] && next[j] == sorted[j - 1]);
            assert(places[i] == order[i] && places[j] == order[j - 1]);
        }
    }
}

/// Puts devices in the order of their names, as strings are ordered.
/// Devices of the same name stay in the order in which they came.
pub fn sort_by_product(devices: &Vec<USBDevice>) -> (r: Vec<USBDevice>)
    ensures
        exists|order: Seq<int>| is_sorted_by_name(devices@, r@, order),
{
    let mut sorted: Vec<USBDevice> = Vec::new();
    let ghost mut order: Seq<int> = Seq::empty();
    let mut k: usize = 0;
    while k < devices.len()
        invariant
            k <= devices@.len(),
            is_sorted_by_name(devices@.take(k as int), sorted@, order),
        decreases devices@.len() - k,
    {
        let mut at: usize = sorted.len();
        while at > 0 && !not_after(
            sorted[at - 1].product_string.as_str(),
            devices[k].product_string.as_str(),
        )
            invariant
                at <= sorted@.len(),
                k < devices@.len(),
                forall|i: int|
                    at <= i < sorted@.len() ==> !comes_before(
                        (#[trigger] sorted@[i]).product_string@,
                        devices@[k as int].product_string@,
                    ),
            decreases at,
        {
            at = at - 1;
        }
        proof {
            let name = devices@[k as int].product_string@;
            assert forall|i: int| 0 <= i < at implies comes_before(
                (#[trigger] sorted@[i]).product_string@,
                name,
            ) by {
                if i < at - 1 {
                    lemma_order_transitive(
                        sorted@[i].product_string@,
                        sorted@[at - 1].product_string@,
                        name,
                    );
                }
            }
            lemma_insert_keeps_sorted(devices@, sorted@, order, k as int, at as int);
            order = order.insert(at as int, k as int);
        }
        sorted.insert(at, devices[k].clone());
        k = k + 1;
    }
    assert(devices@.take(k as int) =~= devices@);
    sorted
}

} // verus!
