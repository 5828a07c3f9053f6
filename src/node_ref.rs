use vstd::prelude::*;
use vstd::string::StrSliceExecFns;

verus! {

/// The mathematical value of a reference: its label and its uniqueness token.
pub type RefKey = (Seq<char>, u128);

/// Lexicographic order of labels, character by character (by code point).
pub open spec fn label_lt(a: Seq<char>, b: Seq<char>) -> bool
    decreases a.len(),
{
    if a.len() == 0 {
        b.len() > 0
    } else if b.len() == 0 {
        false
    } else if a[0] != b[0] {
        (a[0] as u32) < (b[0] as u32)
    } else {
        label_lt(a.drop_first(), b.drop_first())
    }
}

/// The canonical order of references: by label first, then by uniqueness token.
pub open spec fn key_lt(a: RefKey, b: RefKey) -> bool {
    label_lt(a.0, b.0) || (a.0 == b.0 && a.1 < b.1)
}

pub proof fn lemma_label_lt_irreflexive(a: Seq<char>)
    ensures
        !label_lt(a, a),
    decreases a.len(),
{
    if a.len() > 0 {
        lemma_label_lt_irreflexive(a.drop_first());
    }
}

pub proof fn lemma_label_lt_transitive(a: Seq<char>, b: Seq<char>, c: Seq<char>)
    requires
        label_lt(a, b),
        label_lt(b, c),
    ensures
        label_lt(a, c),
    decreases a.len(),
{
    if a.len() > 0 && b.len() > 0 && c.len() > 0 && a[0] == b[0] && b[0] == c[0] {
        lemma_label_lt_transitive(a.drop_first(), b.drop_first(), c.drop_first());
    }
}

pub proof fn lemma_label_lt_total(a: Seq<char>, b: Seq<char>)
    ensures
        a == b || label_lt(a, b) || label_lt(b, a),
    decreases a.len(),
{
    if a.len() == 0 && b.len() == 0 {
        assert(a =~= b);
    } else if a.len() > 0 && b.len() > 0 && a[0] == b[0] {
        lemma_label_lt_total(a.drop_first(), b.drop_first());
        if a.drop_first() == b.drop_first() {
            assert(a =~= seq![a[0]] + a.drop_first());
            assert(b =~= seq![b[0]] + b.drop_first());
        }
    } else if a.len() > 0 && b.len() > 0 {
        vstd::utf8::char_u32_cast(a[0], a[0] as u32);
        vstd::utf8::char_u32_cast(b[0], b[0] as u32);
    }
}

pub proof fn lemma_key_lt_irreflexive(a: RefKey)
    ensures
        !key_lt(a, a),
{
    lemma_label_lt_irreflexive(a.0);
}

pub proof fn lemma_key_lt_transitive(a: RefKey, b: RefKey, c: RefKey)
    requires
        key_lt(a, b),
        key_lt(b, c),
    ensures
        key_lt(a, c),
{
    if label_lt(a.0, b.0) && label_lt(b.0, c.0) {
        lemma_label_lt_transitive(a.0, b.0, c.0);
    }
}

pub proof fn lemma_key_lt_total(a: RefKey, b: RefKey)
    ensures
        a == b || key_lt(a, b) || key_lt(b, a),
{
    lemma_label_lt_total(a.0, b.0);
}

/// Whether label `a` comes before label `b`: compares character by character.
fn label_less(a: &str, b: &str) -> (r: bool)
    ensures
        r == label_lt(a@, b@),
{
    let n = a.unicode_len();
    let m = b.unicode_len();
    let mut i: usize = 0;
    assert(a@.skip(0) =~= a@);
    assert(b@.skip(0) =~= b@);
    while i < n && i < m
        invariant
            n == a@.len(),
            m == b@.len(),
            i <= n,
            i <= m,
            label_lt(a@, b@) == label_lt(a@.skip(i as int), b@.skip(i as int)),
        decreases n - i,
    {
        let x = a.get_char(i);
        let y = b.get_char(i);
        proof {
            assert(a@.skip(i as int)[0] == x);
            assert(b@.skip(i as int)[0] == y);
            assert(a@.skip(i as int).drop_first() =~= a@.skip(i as int + 1));
            assert(b@.skip(i as int).drop_first() =~= b@.skip(i as int + 1));
        }
        if x != y {
            return (x as u32) < (y as u32);
        }
        i = i + 1;
    }
    proof {
        assert(a@.skip(i as int).len() == n - i);
        assert(b@.skip(i as int).len() == m - i);
    }
    n < m
}

/// Relies on `uuid::Uuid::new_v4` and `Uuid::as_u128`: a random version-4 UUID
/// as an integer. Nothing is promised about its value.
#[verifier::external_body]
pub(crate) fn random_token() -> (r: u128) {
    uuid::Uuid::new_v4().as_u128()
}

/// A reference to a place of a net: a label and a uniqueness token.
#[derive(Debug)]
pub struct PlaceRef {
    label: String,
    uuid: u128,
}

/// A reference to a transition of a net: a label and a uniqueness token.
#[derive(Debug)]
pub struct TransitionRef {
    label: String,
    uuid: u128,
}

/// What the net's containers need of a reference: its key, a copy and the order.
pub trait NodeRef: Sized {
    spec fn key(&self) -> RefKey;

    fn label_ref(&self) -> (r: &String)
        ensures
            r@ == self.key().0,
    ;

    fn token(&self) -> (r: u128)
        ensures
            r == self.key().1,
    ;

    fn duplicate(&self) -> (r: Self)
        ensures
            r.key() == self.key(),
    ;

    fn same_key(&self, other: &Self) -> (r: bool)
        ensures
            r == (self.key() == other.key()),
    ;

    fn less_than(&self, other: &Self) -> (r: bool)
        ensures
            r == key_lt(self.key(), other.key()),
    ;
}

fn keys_equal(la: &String, ua: u128, lb: &String, ub: u128) -> (r: bool)
    ensures
        r == ((la@, ua) == (lb@, ub)),
{
    ua == ub && *la == *lb
}

fn keys_less(la: &String, ua: u128, lb: &String, ub: u128) -> (r: bool)
    ensures
        r == key_lt((la@, ua), (lb@, ub)),
{
    if label_less(la.as_str(), lb.as_str()) {
        true
    } else {
        *la == *lb && ua < ub
    }
}

impl View for PlaceRef {
    type V = RefKey;

    closed spec fn view(&self) -> RefKey {
        (self.label@, self.uuid)
    }
}

impl View for TransitionRef {
    type V = RefKey;

    closed spec fn view(&self) -> RefKey {
        (self.label@, self.uuid)
    }
}

impl PlaceRef {
    /// Creates a place reference with the given label and a random uniqueness token.
    pub fn new(place_label: &str) -> (r: PlaceRef)
        ensures
            r@.0 == place_label@,
    {
        PlaceRef { label: place_label.to_owned(), uuid: random_token() }
    }

    /// Creates a place reference with the given label and uniqueness token.
    pub fn with_token(place_label: &str, token: u128) -> (r: PlaceRef)
        ensures
            r@ == (place_label@, token),
    {
        PlaceRef { label: place_label.to_owned(), uuid: token }
    }

    /// Returns the place label of this reference.
    pub fn label(&self) -> (r: &String)
        ensures
            r@ == self@.0,
    {
        &self.label
    }

    /// Returns the uniqueness token of this reference.
    pub fn uuid(&self) -> (r: u128)
        ensures
            r == self@.1,
    {
        self.uuid
    }

    /// Returns the label as a new string.
    pub fn as_string(&self) -> (r: String)
        ensures
            r@ == self@.0,
    {
        self.label.clone()
    }
}

impl TransitionRef {
    /// Creates a transition reference with the given label and a random uniqueness token.
    pub fn new(transition_label: &str) -> (r: TransitionRef)
        ensures
            r@.0 == transition_label@,
    {
        TransitionRef { label: transition_label.to_owned(), uuid: random_token() }
    }

    /// Creates a transition reference with the given label and uniqueness token.
    pub fn with_token(transition_label: &str, token: u128) -> (r: TransitionRef)
        ensures
            r@ == (transition_label@, token),
    {
        TransitionRef { label: transition_label.to_owned(), uuid: token }
    }

    /// Returns the transition label of this reference.
    pub fn label(&self) -> (r: &String)
        ensures
            r@ == self@.0,
    {
        &self.label
    }

    /// Returns the uniqueness token of this reference.
    pub fn uuid(&self) -> (r: u128)
        ensures
            r == self@.1,
    {
        self.uuid
    }

    /// Returns the label as a new string.
    pub fn as_string(&self) -> (r: String)
        ensures
            r@ == self@.0,
    {
        self.label.clone()
    }
}

impl NodeRef for PlaceRef {
    open spec fn key(&self) -> RefKey {
        self@
    }

    fn label_ref(&self) -> (r: &String) {
        &self.label
    }

    fn token(&self) -> (r: u128) {
        self.uuid
    }

    fn duplicate(&self) -> (r: Self) {
        PlaceRef { label: self.label.clone(), uuid: self.uuid }
    }

    fn same_key(&self, other: &Self) -> (r: bool) {
        keys_equal(&self.label, self.uuid, &other.label, other.uuid)
    }

    fn less_than(&self, other: &Self) -> (r: bool) {
        keys_less(&self.label, self.uuid, &other.label, other.uuid)
    }
}

impl NodeRef for TransitionRef {
    open spec fn key(&self) -> RefKey {
        self@
    }

    fn label_ref(&self) -> (r: &String) {
        &self.label
    }

    fn token(&self) -> (r: u128) {
        self.uuid
    }

    fn duplicate(&self) -> (r: Self) {
        TransitionRef { label: self.label.clone(), uuid: self.uuid }
    }

    fn same_key(&self, other: &Self) -> (r: bool) {
        keys_equal(&self.label, self.uuid, &other.label, other.uuid)
    }

    fn less_than(&self, other: &Self) -> (r: bool) {
        keys_less(&self.label, self.uuid, &other.label, other.uuid)
    }
}

impl Clone for PlaceRef {
    fn clone(&self) -> (r: Self)
        ensures
            r@ == self@,
    {
        self.duplicate()
    }
}

impl Clone for TransitionRef {
    fn clone(&self) -> (r: Self)
        ensures
            r@ == self@,
    {
        self.duplicate()
    }
}

impl PartialEq for PlaceRef {
    fn eq(&self, other: &PlaceRef) -> (r: bool) {
        self.same_key(other)
    }
}

impl vstd::std_specs::cmp::PartialEqSpecImpl for PlaceRef {
    open spec fn obeys_eq_spec() -> bool {
        true
    }

    open spec fn eq_spec(&self, other: &PlaceRef) -> bool {
        self@ == other@
    }
}

impl PartialEq for TransitionRef {
    fn eq(&self, other: &TransitionRef) -> (r: bool) {
        self.same_key(other)
    }
}

impl vstd::std_specs::cmp::PartialEqSpecImpl for TransitionRef {
    open spec fn obeys_eq_spec() -> bool {
        true
    }

    open spec fn eq_spec(&self, other: &TransitionRef) -> bool {
        self@ == other@
    }
}

} // verus!
