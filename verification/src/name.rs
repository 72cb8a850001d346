//! Normalized DNS names.
//!
//! A `Name` is a lowercased, trailing-dot-stripped presentation name:
//! ASCII bytes, length 1..=253, no empty labels, every label at most 63
//! bytes. Equality is byte-exact after normalization.

use vstd::prelude::*;

verus! {

/// Byte value of `'.'`.
pub const DOT: u8 = 46;

/// Lowercase an ASCII byte; bytes outside `A..=Z` are unchanged.
pub open spec fn lower_byte(b: u8) -> u8 {
    if 65 <= b <= 90 {
        (b + 32) as u8
    } else {
        b
    }
}

/// Printable, non-space ASCII.
pub open spec fn graphic(b: u8) -> bool {
    33 <= b <= 126
}

/// Strip a single trailing dot, if present.
pub open spec fn strip_dot(s: Seq<u8>) -> Seq<u8> {
    if s.len() > 0 && s.last() == DOT {
        s.drop_last()
    } else {
        s
    }
}

/// The normalization map: strip one trailing dot, then lowercase.
pub open spec fn normalize_seq(s: Seq<u8>) -> Seq<u8> {
    strip_dot(s).map_values(|b: u8| lower_byte(b))
}

/// Some position of `s` in the window `i..=i+63` holds a dot.
pub open spec fn window_has_dot(s: Seq<u8>, i: int) -> bool {
    exists|j: int| i <= j <= i + 63 && #[trigger] s[j] == DOT
}

/// Well-formedness of a normalized name: 1..=253 graphic lowercase bytes,
/// no leading, trailing or doubled dot, and a dot inside every window of
/// 64 consecutive positions (so every label is at most 63 bytes).
pub open spec fn wf_name(s: Seq<u8>) -> bool {
    &&& 1 <= s.len() <= 253
    &&& forall|i: int| 0 <= i < s.len() ==> graphic(#[trigger] s[i]) && !(65 <= s[i] <= 90)
    &&& s[0] != DOT
    &&& s[s.len() - 1] != DOT
    &&& forall|i: int| 0 < i < s.len() && #[trigger] s[i] == DOT ==> s[i - 1] != DOT
    &&& forall|i: int| 0 <= i && i + 63 < s.len() ==> #[trigger] window_has_dot(s, i)
}

/// A name that failed normalization; the query is answered with FORMERR.
#[derive(Clone, Copy, PartialEq, Eq, Structural, Debug)]
pub struct NameError;

/// A normalized DNS name.
#[derive(Debug)]
pub struct Name {
    bytes: Vec<u8>,
}

impl View for Name {
    type V = Seq<u8>;

    closed spec fn view(&self) -> Seq<u8> {
        self.bytes@
    }
}

impl Clone for Name {
    fn clone(&self) -> (r: Self)
        ensures
            r@ == self@,
    {
        let mut out: Vec<u8> = Vec::new();
        let mut i: usize = 0;
        while i < self.bytes.len()
            invariant
                i <= self.bytes.len(),
                out@ == self.bytes@.take(i as int),
            decreases self.bytes.len() - i,
        {
            out.push(self.bytes[i]);
            i += 1;
            proof {
                assert(out@ =~= self.bytes@.take(i as int));
            }
        }
        proof {
            assert(out@ =~= self.bytes@);
        }
        Name { bytes: out }
    }
}

/// Exec lowercase of one byte.
fn lower(b: u8) -> (r: u8)
    ensures
        r == lower_byte(b),
{
    if 65 <= b && b <= 90 {
        b + 32
    } else {
        b
    }
}

impl Name {
    /// The name is a well-formed normalized name.
    pub open spec fn wf(&self) -> bool {
        wf_name(self@)
    }

    /// Normalize a raw presentation name. Returns `Ok` exactly when the
    /// normalized form is well-formed; the returned name is that form.
    pub fn normalize(raw: &Vec<u8>) -> (r: Result<Name, NameError>)
        ensures
            r is Ok <==> wf_name(normalize_seq(raw@)),
            r matches Ok(n) ==> n@ == normalize_seq(raw@) && n.wf(),
    {
        let ghost t = normalize_seq(raw@);
        // length of the stripped input
        let n: usize = if raw.len() > 0 && raw[raw.len() - 1] == DOT {
            raw.len() - 1
        } else {
            raw.len()
        };
        proof {
            assert(t.len() == n);
        }
        if n == 0 || n > 253 {
            return Err(NameError);
        }
        let mut out: Vec<u8> = Vec::new();
        let mut run: usize = 0;
        let mut i: usize = 0;
        while i < n
            invariant
                0 < n <= 253,
                n <= raw.len(),
                t == normalize_seq(raw@),
                t.len() == n,
                forall|k: int| 0 <= k < n ==> t[k] == lower_byte(raw@[k]),
                i <= n,
                out@ == t.take(i as int),
                // bytes seen are graphic and lowercase
                forall|k: int| 0 <= k < i ==> graphic(#[trigger] t[k]) && !(65 <= t[k] <= 90),
                // no leading or doubled dot in the prefix
                i > 0 ==> t[0] != DOT,
                forall|k: int| 0 < k < i && #[trigger] t[k] == DOT ==> t[k - 1] != DOT,
                // run is the trailing non-dot run of the prefix
                run <= i,
                run <= 63,
                forall|k: int| i - run <= k < i ==> #[trigger] t[k] != DOT,
                run < i ==> t[i - run - 1] == DOT,
                // every 64-window inside the prefix holds a dot
                forall|w: int| 0 <= w && w + 63 < i ==> #[trigger] window_has_dot(t, w),
            decreases n - i,
        {
            let b = lower(raw[i]);
            proof {
                assert(t[i as int] == lower_byte(raw@[i as int]));
            }
            if b < 33 || b > 126 {
                proof {
                    assert(!graphic(t[i as int]));
                    assert(!wf_name(t));
                }
                return Err(NameError);
            }
            if b == DOT {
                if run == 0 {
                    // leading dot or empty label
                    proof {
                        if i == 0 {
                            assert(t[0] == DOT);
                        } else {
                            assert(t[i - 1] == DOT);
                        }
                        assert(!wf_name(t));
                    }
                    return Err(NameError);
                }
                run = 0;
            } else {
                if run == 63 {
                    // a label longer than 63 bytes: the window ending here
                    // has no dot
                    proof {
                        let w = i - 63;
                        assert forall|j: int| w <= j <= w + 63 implies t[j] != DOT by {
                            if j < i {
                                assert(t[j] != DOT);
                            } else {
                                assert(t[i as int] != DOT);
                            }
                        }
                        assert(!window_has_dot(t, w));
                        assert(!wf_name(t));
                    }
                    return Err(NameError);
                }
                run = run + 1;
            }
            out.push(b);
            i += 1;
            proof {
                assert(out@ =~= t.take(i as int));
            }
        }
        if run == 0 {
            // trailing dot survived stripping: doubled dot at the end
            proof {
                assert(t[n - 1] == DOT);
                assert(!wf_name(t));
            }
            return Err(NameError);
        }
        proof {
            assert(out@ =~= t);
            assert(wf_name(t));
        }
        Ok(Name { bytes: out })
    }

    /// Byte length of the normalized name.
    pub fn len(&self) -> (r: usize)
        ensures
            r == self@.len(),
    {
        self.bytes.len()
    }

    /// The normalized bytes.
    pub fn as_bytes(&self) -> (r: &Vec<u8>)
        ensures
            r@ == self@,
    {
        &self.bytes
    }

    /// Byte-exact equality of normalized names.
    pub fn same_as(&self, other: &Name) -> (r: bool)
        ensures
            r == (self@ == other@),
    {
        bytes_eq(&self.bytes, &other.bytes)
    }
}

/// Byte-wise equality of two vectors.
pub fn bytes_eq(a: &Vec<u8>, b: &Vec<u8>) -> (r: bool)
    ensures
        r == (a@ == b@),
{
    if a.len() != b.len() {
        proof {
            assert(a@ != b@);
        }
        return false;
    }
    let mut i: usize = 0;
    while i < a.len()
        invariant
            i <= a.len(),
            a.len() == b.len(),
            forall|k: int| 0 <= k < i ==> a@[k] == b@[k],
        decreases a.len() - i,
    {
        if a[i] != b[i] {
            proof {
                assert(a@[i as int] != b@[i as int]);
            }
            return false;
        }
        i += 1;
    }
    proof {
        assert(a@ =~= b@);
    }
    true
}

/// Normalization is idempotent: normalizing an already-normalized
/// well-formed name changes nothing.
pub proof fn lemma_normalize_idempotent(s: Seq<u8>)
    requires
        wf_name(normalize_seq(s)),
    ensures
        normalize_seq(normalize_seq(s)) == normalize_seq(s),
{
    let t = normalize_seq(s);
    assert(t[t.len() - 1] != DOT);
    assert(t.last() != DOT);
    assert(strip_dot(t) == t);
    assert forall|i: int| 0 <= i < t.len() implies lower_byte(#[trigger] t[i]) == t[i] by {
        assert(!(65 <= t[i] <= 90));
    }
    assert(normalize_seq(t) =~= t);
}

} // verus!
