//! Faster lookup of GPU API extensions.
//!
//! The GPU API reports its extensions by name. Comparing names while
//! rendering would be slow, so the extensions that the framework cares about
//! are detected once and kept as a set of flags. The flag values are not
//! the extension numbers of the GPU API: they number the names of a sorted
//! table, which is searched by bisection.

use vstd::prelude::*;
use vstd::string::StrSliceExecFns;

verus! {

/// `a` stands before `b` in the order of the names: at the first place
/// where they differ `a` has the lower character, or `a` ends there and
/// `b` goes on.
pub open spec fn name_less(a: Seq<char>, b: Seq<char>) -> bool {
    exists|k: int| #[trigger] differ_at(a, b, k)
}

/// `a` and `b` agree before place `k`, and at `k` the name `a` ends or has
/// the lower character.
pub open spec fn differ_at(a: Seq<char>, b: Seq<char>, k: int) -> bool {
    &&& 0 <= k <= a.len()
    &&& k < b.len()
    &&& forall|i: int| 0 <= i < k ==> a[i] == b[i]
    &&& k < a.len() ==> (a[k] as u32) < (b[k] as u32)
}

/// The names stand in ascending order.
pub open spec fn names_sorted(names: Seq<&'static str>) -> bool {
    forall|i: int, j: int| 0 <= i < j < names.len() ==> name_less(names[i]@, names[j]@)
}

/// The order of the names is transitive.
pub proof fn lemma_name_less_transitive(a: Seq<char>, b: Seq<char>, c: Seq<char>)
    requires
        name_less(a, b),
        name_less(b, c),
    ensures
        name_less(a, c),
{
    let k1 = choose|k: int| #[trigger] differ_at(a, b, k);
    let k2 = choose|k: int| #[trigger] differ_at(b, c, k);
    let k = if k1 <= k2 {
        k1
    } else {
        k2
    };
    assert(differ_at(a, c, k));
}

/// No name stands before itself, and of two names one at most stands before
/// the other.
pub proof fn lemma_name_less_strict(a: Seq<char>, b: Seq<char>)
    requires
        name_less(a, b),
    ensures
        a != b,
        !name_less(b, a),
{
    let k1 = choose|k: int| #[trigger] differ_at(a, b, k);
    if name_less(b, a) {
        let k2 = choose|k: int| #[trigger] differ_at(b, a, k);
        if k1 < k2 {
            assert(b[k1] == a[k1]);
        } else if k2 < k1 {
            assert(a[k2] == b[k2]);
        }
    }
}

/// How two names compare.
#[derive(Clone, Copy, Debug, PartialEq, Eq, Structural)]
pub enum NameOrder {
    Before,
    Same,
    After,
}

/// Compares two names character by character.
pub fn compare_names(a: &str, b: &str) -> (order: NameOrder)
    ensures
        order == NameOrder::Before <==> name_less(a@, b@),
        order == NameOrder::Same <==> a@ == b@,
        order == NameOrder::After <==> name_less(b@, a@),
{
    let la = a.unicode_len();
    let lb = b.unicode_len();
    let mut i: usize = 0;
    while i < la && i < lb
        invariant
            la == a@.len(),
            lb == b@.len(),
            i <= la,
            i <= lb,
            forall|j: int| 0 <= j < i ==> a@[j] == b@[j],
        decreases la - i,
    {
        let ca = a.get_char(i) as u32;
        let cb = b.get_char(i) as u32;
        if ca < cb {
            proof {
                assert(differ_at(a@, b@, i as int));
                lemma_name_less_strict(a@, b@);
            }
            return NameOrder::Before;
        }
        if cb < ca {
            proof {
                assert(differ_at(b@, a@, i as int));
                lemma_name_less_strict(b@, a@);
            }
            return NameOrder::After;
        }
        assert(a@[i as int] == b@[i as int]);
        i += 1;
    }
    if la < lb {
        proof {
            assert(differ_at(a@, b@, i as int));
            lemma_name_less_strict(a@, b@);
        }
        NameOrder::Before
    } else if lb < la {
        proof {
            assert(differ_at(b@, a@, i as int));
            lemma_name_less_strict(b@, a@);
        }
        NameOrder::After
    } else {
        proof {
            assert(a@ =~= b@);
            if name_less(a@, b@) {
                lemma_name_less_strict(a@, b@);
            }
            if name_less(b@, a@) {
                lemma_name_less_strict(b@, a@);
            }
        }
        NameOrder::Same
    }
}

/// The place of `name` in the sorted table `names`, found by bisection.
pub fn find_name(names: &Vec<&'static str>, name: &str) -> (found: Option<usize>)
    requires
        names_sorted(names@),
    ensures
        found matches Some(i) ==> i < names@.len() && names@[i as int]@ == name@,
        found is None ==> forall|i: int| 0 <= i < names@.len() ==> names@[i]@ != name@,
{
    let mut lo: usize = 0;
    let mut hi: usize = names.len();
    while lo < hi
        invariant
            names_sorted(names@),
            lo <= hi <= names@.len(),
            forall|i: int| 0 <= i < lo ==> name_less(names@[i]@, name@),
            forall|i: int| hi <= i < names@.len() ==> name_less(name@, names@[i]@),
        decreases hi - lo,
    {
        let mid = lo + (hi - lo) / 2;
        match compare_names(names[mid], name) {
            NameOrder::Same => {
                return Some(mid);
            },
            NameOrder::Before => {
                proof {
                    assert forall|i: int| 0 <= i < mid + 1 implies name_less(names@[i]@, name@) by {
                        if i < mid {
                            lemma_name_less_transitive(names@[i]@, names@[mid as int]@, name@);
                        }
                    }
                }
                lo = mid + 1;
            },
            NameOrder::After => {
                proof {
                    assert forall|i: int| mid <= i < names@.len() implies name_less(name@, names@[i]@) by {
                        if i > mid {
                            lemma_name_less_transitive(name@, names@[mid as int]@, names@[i]@);
                        }
                    }
                }
                hi = mid;
            },
        }
    }
    proof {
        assert forall|i: int| 0 <= i < names@.len() implies names@[i]@ != name@ by {
            if i < lo {
                lemma_name_less_strict(names@[i]@, name@);
            } else {
                lemma_name_less_strict(name@, names@[i]@);
            }
        }
    }
    None
}

/// Is bit `i` of `bits` set?
pub open spec fn has_bit(bits: u64, i: nat) -> bool {
    i < 64 && (bits >> (i as u64)) & 1 == 1
}

/// Setting bit `i` sets that bit and leaves the others.
proof fn lemma_set_bit(bits: u64, i: u64, j: u64)
    requires
        i < 64,
        j < 64,
    ensures
        (((bits | (1u64 << i)) >> j) & 1 == 1) <==> (i == j || (bits >> j) & 1 == 1),
{
    assert((((bits | (1u64 << i)) >> j) & 1 == 1) <==> (i == j || (bits >> j) & 1 == 1)) by (bit_vector)
        requires
            i < 64,
            j < 64,
    ;
}

/// The flags of the names in `reported` that stand in the table `names`:
/// bit `i` is set exactly where the name at place `i` of the table is
/// reported.
pub fn detect_names(names: &Vec<&'static str>, reported: &Vec<&str>) -> (bits: u64)
    requires
        names_sorted(names@),
        names@.len() <= 64,
    ensures
        forall|i: nat|
            #[trigger] has_bit(bits, i) <==> i < names@.len() && exists|j: int|
                0 <= j < reported@.len() && (#[trigger] reported@[j])@ == names@[i as int]@,
{
    let mut bits: u64 = 0;
    let mut n: usize = 0;
    proof {
        assert forall|i: nat| !#[trigger] has_bit(0u64, i) by {
            if i < 64 {
                let s = i as u64;
                assert((0u64 >> s) & 1 == 0) by (bit_vector);
            }
        }
    }
    while n < reported.len()
        invariant
            names_sorted(names@),
            names@.len() <= 64,
            n <= reported@.len(),
            forall|i: nat|
                #[trigger] has_bit(bits, i) <==> i < names@.len() && exists|j: int|
                    0 <= j < n && (#[trigger] reported@[j])@ == names@[i as int]@,
        decreases reported@.len() - n,
    {
        let ghost before = bits;
        let found = find_name(names, reported[n]);
        match found {
            Some(place) => {
                bits = bits | (1u64 << (place as u64));
                proof {
                    assert forall|i: nat|
                        #[trigger] has_bit(bits, i) <==> i < names@.len() && exists|j: int|
                            0 <= j < n + 1 && (#[trigger] reported@[j])@ == names@[i as int]@ by {
                        if i < 64 {
                            lemma_set_bit(before, place as u64, i as u64);
                        }
                        if has_bit(before, i) {
                            let j = choose|j: int|
                                0 <= j < n && (#[trigger] reported@[j])@ == names@[i as int]@;
                            assert(reported@[j]@ == names@[i as int]@);
                        }
                        if i == place {
                            assert(reported@[n as int]@ == names@[i as int]@);
                        }
                        if i < names@.len() && i != place && reported@[n as int]@ == names@[i as int]@ {
                            if i < place {
                                lemma_name_less_strict(names@[i as int]@, names@[place as int]@);
                            } else {
                                lemma_name_less_strict(names@[place as int]@, names@[i as int]@);
                            }
                        }
                    }
                }
            },
            None => {
                proof {
                    assert forall|i: nat|
                        #[trigger] has_bit(bits, i) <==> i < names@.len() && exists|j: int|
                            0 <= j < n + 1 && (#[trigger] reported@[j])@ == names@[i as int]@ by {
                        if has_bit(before, i) {
                            let j = choose|j: int|
                                0 <= j < n && (#[trigger] reported@[j])@ == names@[i as int]@;
                            assert(reported@[j]@ == names@[i as int]@);
                        }
                    }
                }
            },
        }
        n += 1;
    }
    bits
}

/// The names among the first `upto` of the table whose flags are set in
/// `bits`, in the order of the table.
pub open spec fn flagged(names: Seq<&'static str>, bits: u64, upto: nat) -> Seq<&'static str>
    decreases upto,
{
    if upto == 0 {
        Seq::empty()
    } else {
        let before = flagged(names, bits, (upto - 1) as nat);
        if has_bit(bits, (upto - 1) as nat) {
            before.push(names[upto - 1])
        } else {
            before
        }
    }
}

/// The names of the table whose flags are set in `bits`, in the order of
/// the table.
pub fn flagged_names(names: &Vec<&'static str>, bits: u64) -> (found: Vec<&'static str>)
    requires
        names@.len() <= 64,
    ensures
        found@ == flagged(names@, bits, names@.len()),
{
    let mut found: Vec<&'static str> = Vec::new();
    let mut shift: usize = 0;
    while shift < names.len()
        invariant
            names@.len() <= 64,
            shift <= names@.len(),
            found@ == flagged(names@, bits, shift as nat),
        decreases names@.len() - shift,
    {
        if (bits >> (shift as u64)) & 1 == 1 {
            found.push(names[shift]);
        }
        shift += 1;
    }
    found
}

/// The table of names is sorted.
pub proof fn lemma_instance_extension_names_sorted()
    ensures
        names_sorted(instance_extension_names()),
{
    let names = instance_extension_names();
    reveal_strlit("VK_EXT_debug_utils");
    reveal_strlit("VK_KHR_display");
    reveal_strlit("VK_KHR_surface");
    reveal_strlit("VK_KHR_wayland_surface");
    reveal_strlit("VK_KHR_xcb_surface");
    reveal_strlit("VK_KHR_xlib_surface");
    assert(differ_at(names[0]@, names[1]@, 3));
    assert(differ_at(names[1]@, names[2]@, 7));
    assert(differ_at(names[2]@, names[3]@, 7));
    assert(differ_at(names[3]@, names[4]@, 7));
    assert(differ_at(names[4]@, names[5]@, 8));
    lemma_name_less_transitive(names[0]@, names[1]@, names[2]@);
    lemma_name_less_transitive(names[1]@, names[2]@, names[3]@);
    lemma_name_less_transitive(names[2]@, names[3]@, names[4]@);
    lemma_name_less_transitive(names[3]@, names[4]@, names[5]@);
    lemma_name_less_transitive(names[0]@, names[2]@, names[3]@);
    lemma_name_less_transitive(names[1]@, names[3]@, names[4]@);
    lemma_name_less_transitive(names[2]@, names[4]@, names[5]@);
    lemma_name_less_transitive(names[0]@, names[3]@, names[4]@);
    lemma_name_less_transitive(names[1]@, names[4]@, names[5]@);
    lemma_name_less_transitive(names[0]@, names[4]@, names[5]@);
    assert forall|i: int, j: int| 0 <= i < j < names.len() implies name_less(names[i]@, names[j]@) by {
        if i == 0 && j == 1 {
            assert(name_less(names[0]@, names[1]@));
        }         else if i == 0 && j == 2 {
            assert(name_less(names[0]@, names[2]@));
        }         else if i == 0 && j == 3 {
            assert(name_less(names[0]@, names[3]@));
        }         else if i == 0 && j == 4 {
            assert(name_less(names[0]@, names[4]@));
        }         else if i == 0 && j == 5 {
            assert(name_less(names[0]@, names[5]@));
        }         else if i == 1 && j == 2 {
            assert(name_less(names[1]@, names[2]@));
        }         else if i == 1 && j == 3 {
            assert(name_less(names[1]@, names[3]@));
        }         else if i == 1 && j == 4 {
            assert(name_less(names[1]@, names[4]@));
        }         else if i == 1 && j == 5 {
            assert(name_less(names[1]@, names[5]@));
        }         else if i == 2 && j == 3 {
            assert(name_less(names[2]@, names[3]@));
        }         else if i == 2 && j == 4 {
            assert(name_less(names[2]@, names[4]@));
        }         else if i == 2 && j == 5 {
            assert(name_less(names[2]@, names[5]@));
        }         else if i == 3 && j == 4 {
            assert(name_less(names[3]@, names[4]@));
        }         else if i == 3 && j == 5 {
            assert(name_less(names[3]@, names[5]@));
        }         else if i == 4 && j == 5 {
            assert(name_less(names[4]@, names[5]@));
        } 
    }
}

/// The names of the instance extensions that the framework looks for, sorted.
pub open spec fn instance_extension_names() -> Seq<&'static str> {
    seq!["VK_EXT_debug_utils", "VK_KHR_display", "VK_KHR_surface", "VK_KHR_wayland_surface", "VK_KHR_xcb_surface", "VK_KHR_xlib_surface"]
}

/// The flag of `VK_EXT_debug_utils`.
pub const INSTANCE_EXT_DEBUG_UTILS: u64 = 0x1;

/// The flag of `VK_KHR_display`.
pub const INSTANCE_KHR_DISPLAY: u64 = 0x2;

/// The flag of `VK_KHR_surface`.
pub const INSTANCE_KHR_SURFACE: u64 = 0x4;

/// The flag of `VK_KHR_wayland_surface`.
pub const INSTANCE_KHR_WAYLAND_SURFACE: u64 = 0x8;

/// The flag of `VK_KHR_xcb_surface`.
pub const INSTANCE_KHR_XCB_SURFACE: u64 = 0x10;

/// The flag of `VK_KHR_xlib_surface`.
pub const INSTANCE_KHR_XLIB_SURFACE: u64 = 0x20;

/// A set of instance extensions.
#[derive(Clone, Copy, Debug, PartialEq, Eq, Structural)]
pub struct InstanceExtensionFlags {
    bits: u64,
}

impl InstanceExtensionFlags {
    /// The flags as bits: bit `i` stands for the name at place `i` of the
    /// table.
    pub closed spec fn spec_bits(self) -> u64 {
        self.bits
    }

    /// The table of names, sorted.
    pub fn names() -> (names: Vec<&'static str>)
        ensures
            names@ == instance_extension_names(),
            names@.len() == 6,
            names_sorted(names@),
    {
        let mut names: Vec<&'static str> = Vec::new();
        names.push("VK_EXT_debug_utils");
        names.push("VK_KHR_display");
        names.push("VK_KHR_surface");
        names.push("VK_KHR_wayland_surface");
        names.push("VK_KHR_xcb_surface");
        names.push("VK_KHR_xlib_surface");
        proof {
            assert(names@ =~= instance_extension_names());
            lemma_instance_extension_names_sorted();
        }
        names
    }

    /// The empty set.
    pub fn empty() -> (flags: InstanceExtensionFlags)
        ensures
            flags.spec_bits() == 0,
    {
        InstanceExtensionFlags { bits: 0 }
    }

    /// The set with the given bits; bits that stand for no name are dropped.
    pub fn from_bits_truncate(bits: u64) -> (flags: InstanceExtensionFlags)
        ensures
            flags.spec_bits() == bits & 0x3f,
    {
        InstanceExtensionFlags { bits: bits & 0x3f }
    }

    pub fn bits(self) -> (bits: u64)
        ensures
            bits == self.spec_bits(),
    {
        self.bits
    }

    /// The extensions that are in this set or in `other`.
    pub fn union(self, other: InstanceExtensionFlags) -> (flags: InstanceExtensionFlags)
        ensures
            flags.spec_bits() == self.spec_bits() | other.spec_bits(),
    {
        InstanceExtensionFlags { bits: self.bits | other.bits }
    }

    /// The extensions that are in this set and in `other`.
    pub fn intersection(self, other: InstanceExtensionFlags) -> (flags: InstanceExtensionFlags)
        ensures
            flags.spec_bits() == self.spec_bits() & other.spec_bits(),
    {
        InstanceExtensionFlags { bits: self.bits & other.bits }
    }

    /// The extensions that are in this set and not in `other`.
    pub fn difference(self, other: InstanceExtensionFlags) -> (flags: InstanceExtensionFlags)
        ensures
            flags.spec_bits() == self.spec_bits() & !other.spec_bits(),
    {
        InstanceExtensionFlags { bits: self.bits & !other.bits }
    }

    /// Is the set empty?
    pub fn is_empty(self) -> (empty: bool)
        ensures
            empty == (self.spec_bits() == 0),
    {
        self.bits == 0
    }

    /// Are all extensions of `other` in this set?
    pub fn contains(self, other: InstanceExtensionFlags) -> (all: bool)
        ensures
            all == (self.spec_bits() & other.spec_bits() == other.spec_bits()),
    {
        self.bits & other.bits == other.bits
    }

    /// The extensions of the table that the device reports.
    pub fn detect(reported: &Vec<&str>) -> (flags: InstanceExtensionFlags)
        ensures
            forall|i: nat|
                #[trigger] has_bit(flags.spec_bits(), i) <==> i < 6 && exists|j: int|
                    0 <= j < reported@.len() && (#[trigger] reported@[j])@ == instance_extension_names()[i as int]@,
    {
        let names = Self::names();
        InstanceExtensionFlags { bits: detect_names(&names, reported) }
    }

    /// The flag of the extension with this name, if the table has it.
    pub fn from_ext_name(name: &str) -> (flag: Option<InstanceExtensionFlags>)
        ensures
            flag is None <==> forall|i: int| 0 <= i < 6 ==> instance_extension_names()[i]@ != name@,
            flag matches Some(f) ==> exists|i: int|
                0 <= i < 6 && #[trigger] instance_extension_names()[i]@ == name@ && f.spec_bits() == 1u64 << (
                i as u64),
    {
        let names = Self::names();
        match find_name(&names, name) {
            Some(i) => {
                assert(instance_extension_names()[i as int]@ == name@);
                Some(InstanceExtensionFlags { bits: 1u64 << (i as u64) })
            },
            None => None,
        }
    }

    /// The names of the extensions in the set, in the order of the table.
    pub fn iter_ext_names(self) -> (names: Vec<&'static str>)
        ensures
            names@ == flagged(instance_extension_names(), self.spec_bits(), 6),
    {
        let table = Self::names();
        flagged_names(&table, self.bits)
    }
}

/// The table of names is sorted.
pub proof fn lemma_device_extension_names_sorted()
    ensures
        names_sorted(device_extension_names()),
{
    let names = device_extension_names();
    reveal_strlit("VK_KHR_dedicated_allocation");
    reveal_strlit("VK_KHR_swapchain");
    assert(differ_at(names[0]@, names[1]@, 7));
    assert forall|i: int, j: int| 0 <= i < j < names.len() implies name_less(names[i]@, names[j]@) by {
        if i == 0 && j == 1 {
            assert(name_less(names[0]@, names[1]@));
        } 
    }
}

/// The names of the device extensions that the framework looks for, sorted.
pub open spec fn device_extension_names() -> Seq<&'static str> {
    seq!["VK_KHR_dedicated_allocation", "VK_KHR_swapchain"]
}

/// The flag of `VK_KHR_dedicated_allocation`.
pub const DEVICE_KHR_DEDICATED_ALLOCATION: u64 = 0x1;

/// The flag of `VK_KHR_swapchain`.
pub const DEVICE_KHR_SWAPCHAIN: u64 = 0x2;

/// A set of device extensions.
#[derive(Clone, Copy, Debug, PartialEq, Eq, Structural)]
pub struct DeviceExtensionFlags {
    bits: u64,
}

impl DeviceExtensionFlags {
    /// The flags as bits: bit `i` stands for the name at place `i` of the
    /// table.
    pub closed spec fn spec_bits(self) -> u64 {
        self.bits
    }

    /// The table of names, sorted.
    pub fn names() -> (names: Vec<&'static str>)
        ensures
            names@ == device_extension_names(),
            names@.len() == 2,
            names_sorted(names@),
    {
        let mut names: Vec<&'static str> = Vec::new();
        names.push("VK_KHR_dedicated_allocation");
        names.push("VK_KHR_swapchain");
        proof {
            assert(names@ =~= device_extension_names());
            lemma_device_extension_names_sorted();
        }
        names
    }

    /// The empty set.
    pub fn empty() -> (flags: DeviceExtensionFlags)
        ensures
            flags.spec_bits() == 0,
    {
        DeviceExtensionFlags { bits: 0 }
    }

    /// The set with the given bits; bits that stand for no name are dropped.
    pub fn from_bits_truncate(bits: u64) -> (flags: DeviceExtensionFlags)
        ensures
            flags.spec_bits() == bits & 0x3,
    {
        DeviceExtensionFlags { bits: bits & 0x3 }
    }

    pub fn bits(self) -> (bits: u64)
        ensures
            bits == self.spec_bits(),
    {
        self.bits
    }

    /// The extensions that are in this set or in `other`.
    pub fn union(self, other: DeviceExtensionFlags) -> (flags: DeviceExtensionFlags)
        ensures
            flags.spec_bits() == self.spec_bits() | other.spec_bits(),
    {
        DeviceExtensionFlags { bits: self.bits | other.bits }
    }

    /// The extensions that are in this set and in `other`.
    pub fn intersection(self, other: DeviceExtensionFlags) -> (flags: DeviceExtensionFlags)
        ensures
            flags.spec_bits() == self.spec_bits() & other.spec_bits(),
    {
        DeviceExtensionFlags { bits: self.bits & other.bits }
    }

    /// The extensions that are in this set and not in `other`.
    pub fn difference(self, other: DeviceExtensionFlags) -> (flags: DeviceExtensionFlags)
        ensures
            flags.spec_bits() == self.spec_bits() & !other.spec_bits(),
    {
        DeviceExtensionFlags { bits: self.bits & !other.bits }
    }

    /// Is the set empty?
    pub fn is_empty(self) -> (empty: bool)
        ensures
            empty == (self.spec_bits() == 0),
    {
        self.bits == 0
    }

    /// Are all extensions of `other` in this set?
    pub fn contains(self, other: DeviceExtensionFlags) -> (all: bool)
        ensures
            all == (self.spec_bits() & other.spec_bits() == other.spec_bits()),
    {
        self.bits & other.bits == other.bits
    }

    /// The extensions of the table that the device reports.
    pub fn detect(reported: &Vec<&str>) -> (flags: DeviceExtensionFlags)
        ensures
            forall|i: nat|
                #[trigger] has_bit(flags.spec_bits(), i) <==> i < 2 && exists|j: int|
                    0 <= j < reported@.len() && (#[trigger] reported@[j])@ == device_extension_names()[i as int]@,
    {
        let names = Self::names();
        DeviceExtensionFlags { bits: detect_names(&names, reported) }
    }

    /// The flag of the extension with this name, if the table has it.
    pub fn from_ext_name(name: &str) -> (flag: Option<DeviceExtensionFlags>)
        ensures
            flag is None <==> forall|i: int| 0 <= i < 2 ==> device_extension_names()[i]@ != name@,
            flag matches Some(f) ==> exists|i: int|
                0 <= i < 2 && #[trigger] device_extension_names()[i]@ == name@ && f.spec_bits() == 1u64 << (
                i as u64),
    {
        let names = Self::names();
        match find_name(&names, name) {
            Some(i) => {
                assert(device_extension_names()[i as int]@ == name@);
                Some(DeviceExtensionFlags { bits: 1u64 << (i as u64) })
            },
            None => None,
        }
    }

    /// The names of the extensions in the set, in the order of the table.
    pub fn iter_ext_names(self) -> (names: Vec<&'static str>)
        ensures
            names@ == flagged(device_extension_names(), self.spec_bits(), 2),
    {
        let table = Self::names();
        flagged_names(&table, self.bits)
    }
}

} // verus!
