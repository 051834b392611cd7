use vstd::prelude::*;
use vstd::arithmetic::mul::lemma_mul_inequality;
use crate::group::{
    Ciphertext, DecryptionKey, ciphertext_wf, threshold_decrypt_spec, decrypt_spec, in_group,
};

verus! {

/// How many elements of `b` equal `x`.
pub open spec fn count_in<T>(b: Seq<T>, x: T) -> nat
    decreases b.len(),
{
    if b.len() == 0 {
        0
    } else {
        (if b[0] == x {
            1nat
        } else {
            0nat
        }) + count_in(b.drop_first(), x)
    }
}

/// Many-to-many match count: for every element of `a`, how many
/// elements of `b` equal it, summed. Deliberately asymmetric:
/// duplicates on either side all contribute.
pub open spec fn n_matches_spec<T>(a: Seq<T>, b: Seq<T>) -> nat
    decreases a.len(),
{
    if a.len() == 0 {
        0
    } else {
        count_in(b, a[0]) + n_matches_spec(a.drop_first(), b)
    }
}

/// Whether any element of `a` equals any element of `b`.
pub open spec fn any_matches_spec<T>(a: Seq<T>, b: Seq<T>) -> bool {
    exists|i: int, j: int|
        0 <= i < a.len() && 0 <= j < b.len() && #[trigger] a[i] == #[trigger] b[j]
}

proof fn lemma_count_in_push<T>(b: Seq<T>, y: T, x: T)
    ensures
        count_in(b.push(y), x) == count_in(b, x) + (if y == x {
            1nat
        } else {
            0nat
        }),
    decreases b.len(),
{
    if b.len() == 0 {
        assert(b.push(y).drop_first() =~= Seq::<T>::empty());
        assert(count_in(Seq::<T>::empty(), x) == 0);
        assert(b =~= Seq::<T>::empty());
        assert(b.push(y)[0] == y);
    } else {
        assert(b.push(y).drop_first() =~= b.drop_first().push(y));
        assert(b.push(y)[0] == b[0]);
        lemma_count_in_push(b.drop_first(), y, x);
    }
}

proof fn lemma_n_matches_push<T>(a: Seq<T>, y: T, b: Seq<T>)
    ensures
        n_matches_spec(a.push(y), b) == n_matches_spec(a, b) + count_in(b, y),
    decreases a.len(),
{
    if a.len() == 0 {
        assert(a.push(y).drop_first() =~= Seq::<T>::empty());
        assert(n_matches_spec(Seq::<T>::empty(), b) == 0);
        assert(a =~= Seq::<T>::empty());
        assert(a.push(y)[0] == y);
    } else {
        assert(a.push(y).drop_first() =~= a.drop_first().push(y));
        assert(a.push(y)[0] == a[0]);
        lemma_n_matches_push(a.drop_first(), y, b);
    }
}

/// For every decrypted element of `a`, count how many elements of `b`
/// are group-equal to it; duplicates all contribute.
pub fn n_matches(a: &Vec<u64>, b: &Vec<u64>) -> (r: usize)
    requires
        a@.len() * b@.len() <= usize::MAX,
    ensures
        r == n_matches_spec(a@, b@),
{
    let mut total: usize = 0;
    let mut i: usize = 0;
    proof {
        assert(a@.take(0) =~= Seq::<u64>::empty());
    }
    while i < a.len()
        invariant
            i <= a@.len(),
            a@.len() * b@.len() <= usize::MAX,
            total == n_matches_spec(a@.take(i as int), b@),
            total <= i * b@.len(),
        decreases a@.len() - i,
    {
        let c = count_matches_in(b, a[i]);
        proof {
            lemma_n_matches_push(a@.take(i as int), a@[i as int], b@);
            assert(a@.take(i + 1) =~= a@.take(i as int).push(a@[i as int]));
            lemma_mul_inequality(i + 1, a@.len() as int, b@.len() as int);
            assert((i + 1) * b@.len() == i * b@.len() + b@.len()) by (nonlinear_arith);
        }
        total = total + c;
        i = i + 1;
    }
    proof {
        assert(a@.take(a@.len() as int) =~= a@);
    }
    total
}

/// How many elements of `b` equal `x`.
fn count_matches_in(b: &Vec<u64>, x: u64) -> (r: usize)
    ensures
        r == count_in(b@, x),
        r <= b@.len(),
{
    let mut c: usize = 0;
    let mut j: usize = 0;
    proof {
        assert(b@.take(0) =~= Seq::<u64>::empty());
    }
    while j < b.len()
        invariant
            j <= b@.len(),
            c == count_in(b@.take(j as int), x),
            c <= j,
        decreases b@.len() - j,
    {
        proof {
            lemma_count_in_push(b@.take(j as int), b@[j as int], x);
            assert(b@.take(j + 1) =~= b@.take(j as int).push(b@[j as int]));
        }
        if b[j] == x {
            c = c + 1;
        }
        j = j + 1;
    }
    proof {
        assert(b@.take(b@.len() as int) =~= b@);
    }
    c
}

/// Whether any element of `a` is group-equal to any element of `b`.
pub fn any_matches(a: &Vec<u64>, b: &Vec<u64>) -> (r: bool)
    ensures
        r == any_matches_spec(a@, b@),
{
    let mut i: usize = 0;
    while i < a.len()
        invariant
            i <= a@.len(),
            forall|ii: int, jj: int|
                0 <= ii < i && 0 <= jj < b@.len() ==> #[trigger] a@[ii] != #[trigger] b@[jj],
        decreases a@.len() - i,
    {
        let mut j: usize = 0;
        while j < b.len()
            invariant
                i < a@.len(),
                j <= b@.len(),
                forall|jj: int| 0 <= jj < j ==> a@[i as int] != #[trigger] b@[jj],
            decreases b@.len() - j,
        {
            if a[i] == b[j] {
                return true;
            }
            j = j + 1;
        }
        i = i + 1;
    }
    false
}

/// The ciphertext (or element) values of a labelled report, in entry
/// order.
pub open spec fn vals<T>(s: Seq<(Seq<char>, T)>) -> Seq<T> {
    s.map_values(|p: (Seq<char>, T)| p.1)
}

/// Labels are pairwise distinct: each label maps to one entry.
pub open spec fn labels_unique<T>(s: Seq<(Seq<char>, T)>) -> bool {
    forall|i: int, j: int|
        0 <= i < s.len() && 0 <= j < s.len() && i != j ==> #[trigger] s[i].0 != #[trigger] s[j].0
}

/// A party's report: a mapping from label to one ElGamal ciphertext,
/// keys unique. Possibly already partially decrypted.
#[derive(Debug)]
pub struct EncryptedMatchkeys {
    match_keys: Vec<(String, Ciphertext)>,
}

/// What one partial-decryption pass does to a whole report: every
/// entry's ciphertext is partially decrypted, labels are kept.
pub open spec fn threshold_map(s: Seq<(Seq<char>, Ciphertext)>, k: u64) -> Seq<
    (Seq<char>, Ciphertext),
> {
    s.map_values(|p: (Seq<char>, Ciphertext)| (p.0, threshold_decrypt_spec(p.1, k)))
}

/// What full decryption does to a whole report.
pub open spec fn decrypt_map(s: Seq<(Seq<char>, Ciphertext)>, k: u64) -> Seq<(Seq<char>, u64)> {
    s.map_values(|p: (Seq<char>, Ciphertext)| (p.0, decrypt_spec(p.1, k)))
}

impl EncryptedMatchkeys {
    pub closed spec fn view(&self) -> Seq<(Seq<char>, Ciphertext)> {
        self.match_keys@.map_values(|p: (String, Ciphertext)| (p.0@, p.1))
    }

    pub open spec fn wf(&self) -> bool {
        labels_unique(self@) && forall|i: int|
            0 <= i < self@.len() ==> ciphertext_wf(#[trigger] self@[i].1)
    }

    /// Construct a report from labelled ciphertexts; labels must be
    /// unique and ciphertexts must be group elements.
    pub fn from_matchkeys(match_keys: Vec<(String, Ciphertext)>) -> (r: EncryptedMatchkeys)
        requires
            labels_unique(match_keys@.map_values(|p: (String, Ciphertext)| (p.0@, p.1))),
            forall|i: int|
                0 <= i < match_keys@.len() ==> ciphertext_wf(#[trigger] match_keys@[i].1),
        ensures
            r@ == match_keys@.map_values(|p: (String, Ciphertext)| (p.0@, p.1)),
            r.wf(),
    {
        EncryptedMatchkeys { match_keys }
    }

    /// For every ciphertext of `self`, count how many ciphertexts of
    /// `other` are equal to it.
    pub fn count_matches(&self, other: &Self) -> (r: usize)
        requires
            self@.len() * other@.len() <= usize::MAX,
        ensures
            r == n_matches_spec(vals(self@), vals(other@)),
    {
        let mut total: usize = 0;
        let mut i: usize = 0;
        proof {
            assert(vals(self@).take(0) =~= Seq::<Ciphertext>::empty());
        }
        while i < self.match_keys.len()
            invariant
                i <= self@.len(),
                self@.len() * other@.len() <= usize::MAX,
                total == n_matches_spec(vals(self@).take(i as int), vals(other@)),
                total <= i * other@.len(),
        decreases self@.len() - i,
        {
            let c = other.count_equal_to(self.match_keys[i].1);
            proof {
                lemma_n_matches_push(
                    vals(self@).take(i as int),
                    vals(self@)[i as int],
                    vals(other@),
                );
                assert(vals(self@).take(i + 1) =~= vals(self@).take(i as int).push(
                    vals(self@)[i as int],
                ));
                lemma_mul_inequality(i + 1, self@.len() as int, other@.len() as int);
                assert((i + 1) * other@.len() == i * other@.len() + other@.len())
                    by (nonlinear_arith);
            }
            total = total + c;
            i = i + 1;
        }
        proof {
            assert(vals(self@).take(self@.len() as int) =~= vals(self@));
        }
        total
    }

    /// How many entries of this report carry ciphertext `x`.
    fn count_equal_to(&self, x: Ciphertext) -> (r: usize)
        ensures
            r == count_in(vals(self@), x),
            r <= self@.len(),
    {
        let mut c: usize = 0;
        let mut j: usize = 0;
        proof {
            assert(vals(self@).take(0) =~= Seq::<Ciphertext>::empty());
        }
        while j < self.match_keys.len()
            invariant
                j <= self@.len(),
                c == count_in(vals(self@).take(j as int), x),
                c <= j,
            decreases self@.len() - j,
        {
            proof {
                lemma_count_in_push(vals(self@).take(j as int), vals(self@)[j as int], x);
                assert(vals(self@).take(j + 1) =~= vals(self@).take(j as int).push(
                    vals(self@)[j as int],
                ));
            }
            if self.match_keys[j].1 == x {
                c = c + 1;
            }
            j = j + 1;
        }
        proof {
            assert(vals(self@).take(self@.len() as int) =~= vals(self@));
        }
        c
    }

    /// Apply one holder's partial decryption to every entry,
    /// preserving labels: an immutable transform to a new,
    /// still-encrypted-unless-key-complete report.
    pub fn threshold_decrypt(&self, matchkey_decrypt: &DecryptionKey) -> (r: EncryptedMatchkeys)
        requires
            self.wf(),
            matchkey_decrypt.wf(),
        ensures
            r@ == threshold_map(self@, matchkey_decrypt@),
            r.wf(),
    {
        let mut out: Vec<(String, Ciphertext)> = Vec::new();
        let mut i: usize = 0;
        while i < self.match_keys.len()
            invariant
                i <= self@.len(),
                self.wf(),
                matchkey_decrypt.wf(),
                out@.len() == i,
                forall|jj: int|
                    0 <= jj < i ==> (#[trigger] out@[jj]).0@ == self@[jj].0 && out@[jj].1
                        == threshold_decrypt_spec(self@[jj].1, matchkey_decrypt@),
            decreases self@.len() - i,
        {
            proof {
                assert(self@[i as int] == (self.match_keys@[i as int].0@, self.match_keys@[
                    i as int
                ].1));
                assert(ciphertext_wf(self@[i as int].1));
            }
            let label = self.match_keys[i].0.clone();
            let ct = matchkey_decrypt.threshold_decrypt(self.match_keys[i].1);
            out.push((label, ct));
            i = i + 1;
        }
        let r = EncryptedMatchkeys { match_keys: out };
        proof {
            assert(r@ =~= threshold_map(self@, matchkey_decrypt@));
        }
        r
    }

    /// Apply full decryption to every entry, preserving labels.
    pub fn decrypt(&self, matchkey_decrypt: &DecryptionKey) -> (r: DecryptedMatchkeys)
        requires
            self.wf(),
            matchkey_decrypt.wf(),
        ensures
            r@ == decrypt_map(self@, matchkey_decrypt@),
            r.wf(),
    {
        let mut out: Vec<(String, u64)> = Vec::new();
        let mut i: usize = 0;
        while i < self.match_keys.len()
            invariant
                i <= self@.len(),
                self.wf(),
                matchkey_decrypt.wf(),
                out@.len() == i,
                forall|jj: int|
                    0 <= jj < i ==> (#[trigger] out@[jj]).0@ == self@[jj].0 && out@[jj].1
                        == decrypt_spec(self@[jj].1, matchkey_decrypt@),
            decreases self@.len() - i,
        {
            proof {
                assert(self@[i as int] == (self.match_keys@[i as int].0@, self.match_keys@[
                    i as int
                ].1));
                assert(ciphertext_wf(self@[i as int].1));
            }
            let label = self.match_keys[i].0.clone();
            let point = matchkey_decrypt.decrypt(self.match_keys[i].1);
            out.push((label, point));
            i = i + 1;
        }
        let r = DecryptedMatchkeys { match_keys: out };
        proof {
            assert(r@ =~= decrypt_map(self@, matchkey_decrypt@));
        }
        r
    }
}

/// Two partial-decryption passes over a report commute: the holders
/// may strip their key shares in either order.
pub proof fn lemma_threshold_map_commutes(s: Seq<(Seq<char>, Ciphertext)>, k1: u64, k2: u64)
    requires
        in_group(k1),
        in_group(k2),
        forall|i: int| 0 <= i < s.len() ==> ciphertext_wf(#[trigger] s[i].1),
    ensures
        threshold_map(threshold_map(s, k1), k2) == threshold_map(threshold_map(s, k2), k1),
{
    assert forall|i: int| 0 <= i < s.len() implies #[trigger] threshold_map(
        threshold_map(s, k1),
        k2,
    )[i] == threshold_map(threshold_map(s, k2), k1)[i] by {
        crate::group::lemma_threshold_decrypt_commutes(s[i].1, k1, k2);
    }
    assert(threshold_map(threshold_map(s, k1), k2) =~= threshold_map(threshold_map(s, k2), k1));
}

/// A report after full decryption: a mapping from label to a group
/// element, keys unique.
#[derive(Debug)]
pub struct DecryptedMatchkeys {
    match_keys: Vec<(String, u64)>,
}

impl DecryptedMatchkeys {
    pub closed spec fn view(&self) -> Seq<(Seq<char>, u64)> {
        self.match_keys@.map_values(|p: (String, u64)| (p.0@, p.1))
    }

    pub open spec fn wf(&self) -> bool {
        labels_unique(self@)
    }

    /// Construct a decrypted report from labelled group elements;
    /// labels must be unique.
    pub fn from_matchkeys(match_keys: Vec<(String, u64)>) -> (r: DecryptedMatchkeys)
        requires
            labels_unique(match_keys@.map_values(|p: (String, u64)| (p.0@, p.1))),
        ensures
            r@ == match_keys@.map_values(|p: (String, u64)| (p.0@, p.1)),
            r.wf(),
    {
        DecryptedMatchkeys { match_keys }
    }

    /// The matchkey values of this report, in entry order.
    pub fn values(&self) -> (r: Vec<u64>)
        ensures
            r@ == vals(self@),
    {
        let mut out: Vec<u64> = Vec::new();
        let mut i: usize = 0;
        while i < self.match_keys.len()
            invariant
                i <= self@.len(),
                out@ =~= vals(self@).take(i as int),
            decreases self@.len() - i,
        {
            out.push(self.match_keys[i].1);
            proof {
                assert(out@ =~= vals(self@).take(i + 1));
            }
            i = i + 1;
        }
        proof {
            assert(vals(self@).take(self@.len() as int) =~= vals(self@));
        }
        out
    }

    /// For every element of `self`, count how many elements of
    /// `other` are group-equal to it. Asymmetric by construction.
    pub fn count_matches(&self, other: &Self) -> (r: usize)
        requires
            self@.len() * other@.len() <= usize::MAX,
        ensures
            r == n_matches_spec(vals(self@), vals(other@)),
    {
        let a = self.values();
        let b = other.values();
        n_matches(&a, &b)
    }

    /// Coarse equality between two decrypted reports: true iff at
    /// least one matchkey value is shared between the two sets. This
    /// is deliberately a set-intersection-nonempty test, not
    /// structural equality of the maps.
    pub fn has_any_match(&self, other: &Self) -> (r: bool)
        ensures
            r == any_matches_spec(vals(self@), vals(other@)),
    {
        let a = self.values();
        let b = other.values();
        any_matches(&a, &b)
    }
}

/// A party's event report: currently the encrypted matchkey set.
#[derive(Debug)]
pub struct EventReport {
    pub encrypted_match_keys: EncryptedMatchkeys,
}

impl EventReport {
    /// The current (possibly partially-decrypted) matchkey set, for
    /// inspection by orchestration code.
    pub fn matchkeys(&self) -> (r: &EncryptedMatchkeys)
        ensures
            r@ == self.encrypted_match_keys@,
    {
        &self.encrypted_match_keys
    }
}

/// An event report after full decryption of its matchkey set.
#[derive(Debug)]
pub struct DecryptedEventReport {
    pub decrypted_match_keys: DecryptedMatchkeys,
}

impl DecryptedEventReport {
    /// The decrypted matchkey set.
    pub fn matchkeys(&self) -> (r: &DecryptedMatchkeys)
        ensures
            r@ == self.decrypted_match_keys@,
    {
        &self.decrypted_match_keys
    }
}

} // verus!
