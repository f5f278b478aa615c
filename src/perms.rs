//! Capability permissions and the bit-encoded set that carries them.

use vstd::prelude::*;
use vstd::string::*;

verus! {

/// The complete set of architectural permissions.
#[derive(PartialEq, Eq, Structural, PartialOrd, Ord, Copy, Clone, Debug)]
pub enum Permission {
    /// Capability refers to global memory (this capability may be stored anywhere).
    Global,
    /// Global capabilities can be loaded through this capability.  Without this permission, any
    /// capability loaded via this capability will have `Global` and `LoadGlobal` removed.
    LoadGlobal,
    /// Capability may be used to store.  Any store via a capability without this permission will
    /// trap.
    Store,
    /// Capabilities with store permission may be loaded through this capability.  Without this,
    /// any loaded capability will have `LoadMutable` and `Store` removed.
    LoadMutable,
    /// This capability may be used to store capabilities that do not have `Global` permission.
    StoreLocal,
    /// This capability can be used to load.
    Load,
    /// Any load and store permissions on this capability convey the right to load or store
    /// capabilities in addition to data.
    LoadStoreCapability,
    /// If installed as the program counter capability, running code may access privileged system
    /// registers.
    AccessSystemRegisters,
    /// This capability may be used as a jump target and used to execute instructions.
    Execute,
    /// This capability may be used to unseal other capabilities.  The 'address' range is in the
    /// sealing type namespace and not in the memory namespace.
    Unseal,
    /// This capability may be used to seal other capabilities.  The 'address' range is in the
    /// sealing type namespace and not in the memory namespace.
    Seal,
    /// Software defined permission bit, no architectural meaning.
    User0,
}

/// Number of architectural permission bits; every higher bit of a set is zero.
pub const PERMISSION_BITS: u32 = 12;

impl Permission {
    /// The architecturally fixed bit position of the permission.
    pub open spec fn index(self) -> u32 {
        match self {
            Permission::Global => 0,
            Permission::LoadGlobal => 1,
            Permission::Store => 2,
            Permission::LoadMutable => 3,
            Permission::StoreLocal => 4,
            Permission::Load => 5,
            Permission::LoadStoreCapability => 6,
            Permission::AccessSystemRegisters => 7,
            Permission::Execute => 8,
            Permission::Unseal => 9,
            Permission::Seal => 10,
            Permission::User0 => 11,
        }
    }

    /// The single-bit mask of the permission.
    pub open spec fn spec_bit(self) -> u32 {
        1u32 << self.index()
    }

    /// The single-bit mask of the permission, as native code encodes it.
    pub fn bit(&self) -> (r: u32)
        ensures
            r == self.spec_bit(),
    {
        let i: u32 = match self {
            Permission::Global => 0,
            Permission::LoadGlobal => 1,
            Permission::Store => 2,
            Permission::LoadMutable => 3,
            Permission::StoreLocal => 4,
            Permission::Load => 5,
            Permission::LoadStoreCapability => 6,
            Permission::AccessSystemRegisters => 7,
            Permission::Execute => 8,
            Permission::Unseal => 9,
            Permission::Seal => 10,
            Permission::User0 => 11,
        };
        1u32 << i
    }
}

/// Distinct permissions occupy distinct, non-overlapping bits.
pub proof fn lemma_bit_unique(p: Permission, q: Permission)
    requires
        p != q,
    ensures
        p.spec_bit() != q.spec_bit(),
        p.spec_bit() & q.spec_bit() == 0,
{
    let i = p.index();
    let j = q.index();
    assert(i < 12 && j < 12 && i != j);
    assert((1u32 << i) & (1u32 << j) == 0 && (1u32 << i) != (1u32 << j)) by (bit_vector)
        requires
            i < 12 && j < 12 && i != j,
    ;
}

/// Whether bit `i` of `x` is set.
pub open spec fn has_bit(x: u32, i: u32) -> bool {
    x & (1u32 << i) != 0
}

/// Setting bit `i` sets it, keeps every other bit, and sets nothing above
/// the permission bits.
proof fn lemma_or_bit(x: u32, i: u32)
    requires
        i < 12,
    ensures
        forall|j: u32| j < 32 ==> #[trigger] has_bit(x | (1u32 << i), j) == (j == i || has_bit(x, j)),
        (x >> 12u32 == 0) ==> ((x | (1u32 << i)) >> 12u32 == 0),
        (x | (1u32 << i)) & (1u32 << i) == (1u32 << i),
{
    assert forall|j: u32| j < 32 implies #[trigger] has_bit(x | (1u32 << i), j) == (j == i || has_bit(
        x,
        j,
    )) by {
        assert(((x | (1u32 << i)) & (1u32 << j) != 0) == (j == i || x & (1u32 << j) != 0))
            by (bit_vector)
            requires
                i < 12 && j < 32,
        ;
    }
    assert((x >> 12u32 == 0) ==> ((x | (1u32 << i)) >> 12u32 == 0)) by (bit_vector)
        requires
            i < 12,
    ;
    assert((x | (1u32 << i)) & (1u32 << i) == (1u32 << i)) by (bit_vector);
}

/// A bit-encoded set of permissions.
#[derive(PartialEq, Eq, Structural, PartialOrd, Ord, Copy, Clone, Debug)]
pub struct PermissionSet {
    raw_permissions: u32,
}

impl View for PermissionSet {
    type V = Set<Permission>;

    /// The permissions whose bit is set.
    open spec fn view(&self) -> Set<Permission> {
        Set::new(|p: Permission| has_bit(self.spec_raw(), p.index()))
    }
}

impl PermissionSet {
    /// The underlying bitmask.
    pub closed spec fn spec_raw(self) -> u32 {
        self.raw_permissions
    }

    /// No bit above the architectural permission bits is set.
    pub open spec fn wf(self) -> bool {
        self.spec_raw() >> PERMISSION_BITS == 0
    }

    /// The set with no permission.
    pub closed spec fn spec_empty() -> Self {
        PermissionSet { raw_permissions: 0 }
    }

    /// The set with the bit of `p` added.
    pub closed spec fn spec_with(self, p: Permission) -> Self {
        PermissionSet { raw_permissions: self.raw_permissions | p.spec_bit() }
    }

    /// The set obtained by adding the permissions of `s` one by one, in order,
    /// to the empty set.
    pub open spec fn spec_from_seq(s: Seq<Permission>) -> Self
        decreases s.len(),
    {
        if s.len() == 0 {
            Self::spec_empty()
        } else {
            Self::spec_from_seq(s.drop_last()).spec_with(s.last())
        }
    }

    /// The empty set holds no permission and is well formed.
    pub proof fn lemma_empty()
        ensures
            Self::spec_empty().wf(),
            Self::spec_empty().spec_raw() == 0,
            Self::spec_empty()@ == Set::<Permission>::empty(),
    {
        assert forall|i: u32| i < 32 implies !#[trigger] has_bit(0u32, i) by {
            assert(0u32 & (1u32 << i) == 0) by (bit_vector);
        }
        assert(0u32 >> 12u32 == 0) by (bit_vector);
        assert(Self::spec_empty()@ =~= Set::<Permission>::empty());
    }

    /// Adding a permission inserts it into the view and keeps the set well formed.
    pub proof fn lemma_with(self, p: Permission)
        requires
            self.wf(),
        ensures
            self.spec_with(p).wf(),
            self.spec_with(p).spec_raw() == self.spec_raw() | p.spec_bit(),
            self.spec_with(p)@ == self@.insert(p),
            self@.contains(p) ==> self.spec_with(p) == self,
    {
        let x = self.spec_raw();
        lemma_or_bit(x, p.index());
        assert forall|q: Permission| #[trigger] self.spec_with(p)@.contains(q) == self@.insert(
            p,
        ).contains(q) by {
            lemma_index_injective(p, q);
        }
        assert(self.spec_with(p)@ =~= self@.insert(p));
        if self@.contains(p) {
            let i = p.index();
            assert((x & (1u32 << i) != 0 && i < 12) ==> (x | (1u32 << i)) == x) by (bit_vector);
        }
    }

    /// Two well-formed sets with the same permissions are the same value.
    pub proof fn lemma_view_injective(a: Self, b: Self)
        requires
            a.wf(),
            b.wf(),
            a@ == b@,
        ensures
            a == b,
    {
        let x = a.spec_raw();
        let y = b.spec_raw();
        assert(a@.contains(Permission::Global) == has_bit(x, 0u32));
        assert(b@.contains(Permission::Global) == has_bit(y, 0u32));
        assert(a@.contains(Permission::LoadGlobal) == has_bit(x, 1u32));
        assert(b@.contains(Permission::LoadGlobal) == has_bit(y, 1u32));
        assert(a@.contains(Permission::Store) == has_bit(x, 2u32));
        assert(b@.contains(Permission::Store) == has_bit(y, 2u32));
        assert(a@.contains(Permission::LoadMutable) == has_bit(x, 3u32));
        assert(b@.contains(Permission::LoadMutable) == has_bit(y, 3u32));
        assert(a@.contains(Permission::StoreLocal) == has_bit(x, 4u32));
        assert(b@.contains(Permission::StoreLocal) == has_bit(y, 4u32));
        assert(a@.contains(Permission::Load) == has_bit(x, 5u32));
        assert(b@.contains(Permission::Load) == has_bit(y, 5u32));
        assert(a@.contains(Permission::LoadStoreCapability) == has_bit(x, 6u32));
        assert(b@.contains(Permission::LoadStoreCapability) == has_bit(y, 6u32));
        assert(a@.contains(Permission::AccessSystemRegisters) == has_bit(x, 7u32));
        assert(b@.contains(Permission::AccessSystemRegisters) == has_bit(y, 7u32));
        assert(a@.contains(Permission::Execute) == has_bit(x, 8u32));
        assert(b@.contains(Permission::Execute) == has_bit(y, 8u32));
        assert(a@.contains(Permission::Unseal) == has_bit(x, 9u32));
        assert(b@.contains(Permission::Unseal) == has_bit(y, 9u32));
        assert(a@.contains(Permission::Seal) == has_bit(x, 10u32));
        assert(b@.contains(Permission::Seal) == has_bit(y, 10u32));
        assert(a@.contains(Permission::User0) == has_bit(x, 11u32));
        assert(b@.contains(Permission::User0) == has_bit(y, 11u32));
        assert(x == y) by (bit_vector)
            requires
                x >> 12u32 == 0,
                y >> 12u32 == 0,
                has_bit(x, 0u32) == has_bit(y, 0u32),
                has_bit(x, 1u32) == has_bit(y, 1u32),
                has_bit(x, 2u32) == has_bit(y, 2u32),
                has_bit(x, 3u32) == has_bit(y, 3u32),
                has_bit(x, 4u32) == has_bit(y, 4u32),
                has_bit(x, 5u32) == has_bit(y, 5u32),
                has_bit(x, 6u32) == has_bit(y, 6u32),
                has_bit(x, 7u32) == has_bit(y, 7u32),
                has_bit(x, 8u32) == has_bit(y, 8u32),
                has_bit(x, 9u32) == has_bit(y, 9u32),
                has_bit(x, 10u32) == has_bit(y, 10u32),
                has_bit(x, 11u32) == has_bit(y, 11u32),
        ;
    }

    /// Folding a sequence gives a well-formed set holding exactly its permissions.
    pub proof fn lemma_from_seq(s: Seq<Permission>)
        ensures
            Self::spec_from_seq(s).wf(),
            Self::spec_from_seq(s)@ == s.to_set(),
        decreases s.len(),
    {
        if s.len() == 0 {
            Self::lemma_empty();
            assert(s.to_set() =~= Set::<Permission>::empty());
        } else {
            Self::lemma_from_seq(s.drop_last());
            Self::spec_from_seq(s.drop_last()).lemma_with(s.last());
            assert(s =~= s.drop_last().push(s.last()));
            assert(s.to_set() =~= s.drop_last().to_set().insert(s.last()));
        }
    }

    /// The set with no permission.
    pub fn empty() -> (r: Self)
        ensures
            r == Self::spec_empty(),
            r.wf(),
            r@ == Set::<Permission>::empty(),
    {
        proof {
            Self::lemma_empty();
        }
        PermissionSet { raw_permissions: 0 }
    }

    /// The underlying bitmask, as handed to native validation.
    pub fn as_raw(&self) -> (r: u32)
        ensures
            r == self.spec_raw(),
    {
        self.raw_permissions
    }

    /// Builds the set of the given permissions by adding them in order.
    pub fn from_iter(permissions: &[Permission]) -> (r: Self)
        ensures
            r == Self::spec_from_seq(permissions@),
            r.wf(),
            r@ == permissions@.to_set(),
    {
        let mut ret = Self::empty();
        let mut i: usize = 0;
        while i < permissions.len()
            invariant
                i <= permissions@.len(),
                ret == Self::spec_from_seq(permissions@.subrange(0, i as int)),
                ret.wf(),
            decreases permissions@.len() - i,
        {
            proof {
                Self::lemma_from_seq(permissions@.subrange(0, i as int));
                assert(permissions@.subrange(0, i as int + 1).drop_last() =~= permissions@.subrange(
                    0,
                    i as int,
                ));
            }
            ret.add_permission(permissions[i]);
            i = i + 1;
        }
        proof {
            assert(permissions@.subrange(0, i as int) =~= permissions@);
            Self::lemma_from_seq(permissions@);
        }
        ret
    }

    /// Whether the permission's bit is set.
    pub fn contains(&self, permission: Permission) -> (r: bool)
        ensures
            r == self@.contains(permission),
    {
        let b = permission.bit();
        let x = self.raw_permissions;
        let ghost i = permission.index();
        assert((b & x == b) == (x & b != 0)) by (bit_vector)
            requires
                b == 1u32 << i,
                i < 12,
        ;
        b & x == b
    }

    /// Sets the permission's bit; adding one already present changes nothing.
    pub fn add_permission(&mut self, permission: Permission)
        requires
            old(self).wf(),
        ensures
            *final(self) == old(self).spec_with(permission),
            final(self).wf(),
            final(self)@ == old(self)@.insert(permission),
            old(self)@.contains(permission) ==> *final(self) == *old(self),
    {
        proof {
            self.lemma_with(permission);
        }
        self.raw_permissions = self.raw_permissions | permission.bit();
    }
}

/// Distinct permissions have distinct indices, all below the number of
/// permission bits.
proof fn lemma_index_injective(p: Permission, q: Permission)
    ensures
        p.index() < PERMISSION_BITS,
        (p.index() == q.index()) == (p == q),
{
}

/// The diagnostic token of a permission; `User0` has none.
pub open spec fn token(p: Permission) -> Seq<char> {
    match p {
        Permission::Global => "G"@,
        Permission::LoadGlobal => "<Lg>"@,
        Permission::Store => "W"@,
        Permission::LoadMutable => "m"@,
        Permission::StoreLocal => "<Sl>"@,
        Permission::Load => "R"@,
        Permission::LoadStoreCapability => "c"@,
        Permission::AccessSystemRegisters => "s"@,
        Permission::Execute => "X"@,
        Permission::Unseal => "u"@,
        Permission::Seal => "S"@,
        Permission::User0 => Seq::empty(),
    }
}

/// The token of `p` when `s` holds it, else nothing.
pub open spec fn piece(s: Set<Permission>, p: Permission) -> Seq<char> {
    if s.contains(p) {
        token(p)
    } else {
        Seq::empty()
    }
}

/// The tokens of the permissions held, in the fixed architectural order,
/// between parentheses.
pub open spec fn render(s: Set<Permission>) -> Seq<char> {
    "("@ + piece(s, Permission::Global) + piece(s, Permission::LoadGlobal) + piece(
        s,
        Permission::Store,
    ) + piece(s, Permission::LoadMutable) + piece(s, Permission::StoreLocal) + piece(
        s,
        Permission::Load,
    ) + piece(s, Permission::LoadStoreCapability) + piece(s, Permission::AccessSystemRegisters)
        + piece(s, Permission::Execute) + piece(s, Permission::Unseal) + piece(
        s,
        Permission::Seal,
    ) + ")"@
}

impl PermissionSet {
    /// The diagnostic rendering of the set, such as `(GRX)`.
    pub fn to_string(&self) -> (r: String)
        ensures
            r@ == render(self@),
    {
        let mut out = String::from_str("(");
        if self.contains(Permission::Global) {
            out.append("G");
        }
        if self.contains(Permission::LoadGlobal) {
            out.append("<Lg>");
        }
        if self.contains(Permission::Store) {
            out.append("W");
        }
        if self.contains(Permission::LoadMutable) {
            out.append("m");
        }
        if self.contains(Permission::StoreLocal) {
            out.append("<Sl>");
        }
        if self.contains(Permission::Load) {
            out.append("R");
        }
        if self.contains(Permission::LoadStoreCapability) {
            out.append("c");
        }
        if self.contains(Permission::AccessSystemRegisters) {
            out.append("s");
        }
        if self.contains(Permission::Execute) {
            out.append("X");
        }
        if self.contains(Permission::Unseal) {
            out.append("u");
        }
        if self.contains(Permission::Seal) {
            out.append("S");
        }
        out.append(")");
        out
    }
}

/// Whether a stack-extent check is forwarded: only when the caller asks for
/// one and the permissions include `Global`.
pub fn should_check_stack(permissions: &PermissionSet, check_stack_needed: bool) -> (r: bool)
    ensures
        r == (check_stack_needed && permissions@.contains(Permission::Global)),
{
    check_stack_needed && permissions.contains(Permission::Global)
}

/// Asks `validate` whether `ptr` is a capability valid for `space` bytes with
/// at least `permissions`, and returns its verdict unchanged.  `validate`
/// receives the pointer, the length, the raw bitmask and the derived
/// stack-check flag.
pub fn check_pointer<T, F: Fn(T, usize, u32, bool) -> bool>(
    ptr: T,
    space: usize,
    permissions: &PermissionSet,
    check_stack_needed: bool,
    validate: F,
) -> (r: bool)
    requires
        validate.requires(
            (
                ptr,
                space,
                permissions.spec_raw(),
                check_stack_needed && permissions@.contains(Permission::Global),
            ),
        ),
    ensures
        validate.ensures(
            (
                ptr,
                space,
                permissions.spec_raw(),
                check_stack_needed && permissions@.contains(Permission::Global),
            ),
            r,
        ),
{
    let should_check = should_check_stack(permissions, check_stack_needed);
    validate(ptr, space, permissions.as_raw(), should_check)
}

/// The empty set contains no permission.
pub proof fn lemma_empty_contains_nothing(p: Permission)
    ensures
        !PermissionSet::spec_empty()@.contains(p),
{
    PermissionSet::lemma_empty();
}

/// Adding a permission twice gives the same set as adding it once.
pub proof fn lemma_add_idempotent(s: PermissionSet, p: Permission)
    requires
        s.wf(),
    ensures
        s.spec_with(p).spec_with(p) == s.spec_with(p),
{
    s.lemma_with(p);
    s.spec_with(p).lemma_with(p);
}

/// After adding `p`, the set contains `p`, and still lacks every other
/// permission it lacked before.
pub proof fn lemma_contains_after_add(s: PermissionSet, p: Permission, q: Permission)
    requires
        s.wf(),
    ensures
        s.spec_with(p)@.contains(p),
        q != p && !s@.contains(q) ==> !s.spec_with(p)@.contains(q),
{
    s.lemma_with(p);
}

/// Building a set from two orderings of the same permissions gives the same
/// set, with the same bitmask.
pub proof fn lemma_from_iter_order_independent(s1: Seq<Permission>, s2: Seq<Permission>)
    requires
        s1.to_multiset() == s2.to_multiset(),
    ensures
        PermissionSet::spec_from_seq(s1) == PermissionSet::spec_from_seq(s2),
        PermissionSet::spec_from_seq(s1).spec_raw() == PermissionSet::spec_from_seq(s2).spec_raw(),
{
    s1.to_multiset_ensures();
    s2.to_multiset_ensures();
    assert forall|x: Permission| s1.to_set().contains(x) == s2.to_set().contains(x) by {
        assert(s1.contains(x) <==> s1.to_multiset().count(x) > 0);
        assert(s2.contains(x) <==> s2.to_multiset().count(x) > 0);
    }
    assert(s1.to_set() =~= s2.to_set());
    PermissionSet::lemma_from_seq(s1);
    PermissionSet::lemma_from_seq(s2);
    PermissionSet::lemma_view_injective(
        PermissionSet::spec_from_seq(s1),
        PermissionSet::spec_from_seq(s2),
    );
}

} // verus!
