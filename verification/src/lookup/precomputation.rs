//! The precomputed lookup table: the ordered entries, their count as a
//! power of two, and a map from entry value to its index. When the input
//! holds duplicates, the last occurrence wins.

use std::collections::HashMap;
use vstd::prelude::*;
use vstd::arithmetic::power2::pow2;
use crate::field::{fp_seq_wf, residues, Fp, P};
use crate::poly::multilinear::{mobius_steps, MultilinearPolynomial};
use crate::utils::ProtocolError;

verus! {

broadcast use vstd::std_specs::hash::group_hash_axioms;

/// A length that is a positive power of two.
pub open spec fn is_power_of_two(l: nat) -> bool
    decreases l,
{
    if l == 0 {
        false
    } else if l == 1 {
        true
    } else {
        l % 2 == 0 && is_power_of_two(l / 2)
    }
}

/// Whether some entry of `t` stands for the residue `k`.
pub open spec fn in_table(t: Seq<Fp>, k: int) -> bool {
    exists|i: int| 0 <= i < t.len() && #[trigger] t[i].as_int() == k
}

/// The index of the last entry of `t` standing for `k`.
pub open spec fn last_index(t: Seq<Fp>, k: int) -> int
    decreases t.len(),
{
    if t.len() == 0 {
        0
    } else if t.last().as_int() == k {
        t.len() - 1
    } else {
        last_index(t.drop_last(), k)
    }
}

/// The `n`-bit little-endian decomposition of an index, as residues.
pub open spec fn bits_le(idx: int, n: nat) -> Seq<int> {
    Seq::new(n, |b: int| (idx / pow2(b as nat) as int) % 2)
}

/// An ordered sequence of `2^num_vars` field elements with a map from
/// entry value to index.
#[derive(Clone, Debug)]
pub struct Table {
    pub table: Vec<Fp>,
    pub num_vars: usize,
    pub index_map: HashMap<u64, usize>,
}

impl Table {
    /// Well-formedness: the length fits `num_vars`, entries are canonical,
    /// and the map holds exactly the entry values, each at its last index.
    pub open spec fn wf(self) -> bool {
        &&& self.table.len() == pow2(self.num_vars as nat)
        &&& fp_seq_wf(self.table@)
        &&& forall|k: u64|
            self.index_map@.contains_key(k) <==> in_table(self.table@, k as int)
        &&& forall|k: u64| #[trigger]
            self.index_map@.contains_key(k) ==> self.index_map@[k] as int == last_index(
                self.table@,
                k as int,
            )
    }

    /// The number of variables of the table polynomial.
    pub fn num_vars(&self) -> (r: usize)
        ensures
            r == self.num_vars,
    {
        self.num_vars
    }

    /// The number of entries.
    pub fn len(&self) -> (r: usize)
        requires
            self.wf(),
        ensures
            r == self.table.len(),
            r == pow2(self.num_vars as nat),
    {
        self.table.len()
    }

    /// The entries.
    pub fn table(&self) -> (r: &Vec<Fp>)
        ensures
            r == &self.table,
    {
        &self.table
    }

    /// Builds a table from its entries; rejects a length that is not a
    /// positive power of two.
    pub fn try_from(table: Vec<Fp>) -> (r: Result<Table, ProtocolError>)
        requires
            fp_seq_wf(table@),
        ensures
            r is Ok <==> is_power_of_two(table.len() as nat),
            !is_power_of_two(table.len() as nat) ==> r matches Err(ProtocolError::SizeError),
            r matches Ok(t) ==> {
                &&& t.wf()
                &&& t.table@ == table@
                &&& t.table.len() == pow2(t.num_vars as nat)
            },
    {
        if table.len() == 0 {
            return Err(ProtocolError::SizeError);
        }
        let mut m = table.len();
        let mut num_vars: usize = 0;
        proof {
            vstd::arithmetic::power2::lemma2_to64();
        }
        while m > 1
            invariant
                1 <= m <= table.len(),
                m * pow2(num_vars as nat) == table.len(),
                pow2(num_vars as nat) <= table.len(),
                is_power_of_two(m as nat) <==> is_power_of_two(table.len() as nat),
            decreases m,
        {
            if m % 2 == 1 {
                return Err(ProtocolError::SizeError);
            }
            proof {
                assert(num_vars < 64) by {
                    if num_vars >= 64 {
                        vstd::arithmetic::power2::lemma2_to64();
                        vstd::arithmetic::power2::lemma2_to64_rest();
                        if num_vars > 64 {
                            vstd::arithmetic::power2::lemma_pow2_strictly_increases(
                                64,
                                num_vars as nat,
                            );
                        }
                        assert(pow2(num_vars as nat) >= 0x10000000000000000);
                    }
                }
                assert(pow2((num_vars + 1) as nat) == 2 * pow2(num_vars as nat)) by {
                    vstd::arithmetic::power2::lemma_pow2_unfold((num_vars + 1) as nat);
                }
                assert((m / 2) * pow2((num_vars + 1) as nat) == table.len()) by (nonlinear_arith)
                    requires
                        m * pow2(num_vars as nat) == table.len(),
                        m % 2 == 0,
                        pow2((num_vars + 1) as nat) == 2 * pow2(num_vars as nat),
                {}
                assert(m / 2 >= 1);
                assert(pow2((num_vars + 1) as nat) <= table.len()) by (nonlinear_arith)
                    requires
                        (m / 2) * pow2((num_vars + 1) as nat) == table.len(),
                        m / 2 >= 1,
                        pow2((num_vars + 1) as nat) >= 0,
                {}
            }
            m = m / 2;
            num_vars = num_vars + 1;
        }
        let mut index_map: HashMap<u64, usize> = HashMap::new();
        let mut i: usize = 0;
        while i < table.len()
            invariant
                i <= table.len(),
                fp_seq_wf(table@),
                forall|k: u64|
                    index_map@.contains_key(k) <==> in_table(
                        table@.subrange(0, i as int),
                        k as int,
                    ),
                forall|k: u64| #[trigger]
                    index_map@.contains_key(k) ==> index_map@[k] as int == last_index(
                        table@.subrange(0, i as int),
                        k as int,
                    ),
            decreases table.len() - i,
        {
            let key = table[i].to_u64();
            let ghost pre = table@.subrange(0, i as int);
            let ghost post = table@.subrange(0, i as int + 1);
            index_map.insert(key, i);
            proof {
                assert(post.drop_last() =~= pre);
                assert(post.last() == table@[i as int]);
                assert forall|k: u64| #[trigger] index_map@.contains_key(k) implies
                    index_map@[k] as int == last_index(post, k as int) by {
                    if k == key {
                        assert(post.last().as_int() == k as int);
                    } else {
                        assert(last_index(post, k as int) == last_index(pre, k as int));
                    }
                }
                assert forall|k: u64| index_map@.contains_key(k) <==> in_table(
                    post,
                    k as int,
                ) by {
                    if k == key {
                        assert(post[i as int].as_int() == k as int);
                        assert(in_table(post, k as int));
                    } else {
                        if in_table(post, k as int) {
                            let w = choose|t: int|
                                0 <= t < post.len() && #[trigger] post[t].as_int() == k as int;
                            assert(w < i as int + 1);
                            assert(w != i as int);
                            assert(pre[w].as_int() == k as int);
                            assert(in_table(pre, k as int));
                        }
                        if in_table(pre, k as int) {
                            let w = choose|t: int|
                                0 <= t < pre.len() && #[trigger] pre[t].as_int() == k as int;
                            assert(post[w].as_int() == k as int);
                        }
                    }
                }
            }
            i = i + 1;
        }
        proof {
            assert(table@.subrange(0, table.len() as int) =~= table@);
        }
        Ok(Table { table, num_vars, index_map })
    }

    /// For each element, its index in the table as a little-endian vector
    /// of Boolean field elements; fails with `NotInclusion` exactly when
    /// some element has no match.
    pub fn find_indices(&self, elements: &Vec<Fp>) -> (r: Result<
        Vec<Vec<Fp>>,
        ProtocolError,
    >)
        requires
            self.wf(),
            fp_seq_wf(elements@),
        ensures
            r is Ok <==> (forall|j: int|
                0 <= j < elements.len() ==> in_table(
                    self.table@,
                    #[trigger] elements@[j].as_int(),
                )),
            r is Err ==> r matches Err(ProtocolError::NotInclusion),
            r matches Ok(v) ==> {
                &&& v.len() == elements.len()
                &&& forall|j: int|
                    0 <= j < v.len() ==> (#[trigger] v@[j]).len() == self.num_vars
                &&& forall|j: int| 0 <= j < v.len() ==> fp_seq_wf(#[trigger] v@[j]@)
                &&& forall|j: int|
                    0 <= j < v.len() ==> residues(#[trigger] v@[j]@) == bits_le(
                        last_index(self.table@, elements@[j].as_int()),
                        self.num_vars as nat,
                    )
            },
    {
        let length = self.num_vars;
        let mut indices: Vec<Vec<Fp>> = Vec::new();
        let mut j: usize = 0;
        while j < elements.len()
            invariant
                j <= elements.len(),
                self.wf(),
                fp_seq_wf(elements@),
                length == self.num_vars,
                indices.len() == j,
                forall|t: int|
                    0 <= t < j ==> in_table(self.table@, #[trigger] elements@[t].as_int()),
                forall|t: int|
                    0 <= t < j ==> (#[trigger] indices@[t]).len() == self.num_vars,
                forall|t: int| 0 <= t < j ==> fp_seq_wf(#[trigger] indices@[t]@),
                forall|t: int|
                    0 <= t < j ==> residues(#[trigger] indices@[t]@) == bits_le(
                        last_index(self.table@, elements@[t].as_int()),
                        self.num_vars as nat,
                    ),
            decreases elements.len() - j,
        {
            let key = elements[j].to_u64();
            match self.index_map.get(&key) {
                Some(idx_ref) => {
                    let idx = *idx_ref;
                    let ghost target = last_index(self.table@, elements@[j as int].as_int());
                    proof {
                        assert(self.index_map@.contains_key(key));
                        assert(idx as int == target);
                    }
                    let mut binary_vec: Vec<Fp> = Vec::new();
                    let mut pos = idx;
                    let mut b: usize = 0;
                    proof {
                        vstd::arithmetic::power2::lemma2_to64();
                    }
                    while b < length
                        invariant
                            b <= length,
                            pos as int == target / pow2(b as nat) as int,
                            target >= 0,
                            binary_vec.len() == b,
                            fp_seq_wf(binary_vec@),
                            forall|t: int|
                                0 <= t < b ==> residues(binary_vec@)[t] == bits_le(
                                    target,
                                    length as nat,
                                )[t],
                        decreases length - b,
                    {
                        let bit = pos % 2;
                        binary_vec.push(Fp::from_u64(bit as u64));
                        proof {
                            assert(bit as int % (P as int) == bit as int) by {
                                crate::field::lemma_reduce_id(bit as int);
                            }
                            vstd::arithmetic::power2::lemma_pow2_pos(b as nat);
                            vstd::arithmetic::div_mod::lemma_div_denominator(
                                target,
                                pow2(b as nat) as int,
                                2,
                            );
                            assert(pow2((b + 1) as nat) == pow2(b as nat) * 2) by {
                                vstd::arithmetic::power2::lemma_pow2_unfold((b + 1) as nat);
                            }
                            assert forall|t: int|
                                0 <= t < b + 1 implies residues(binary_vec@)[t] == bits_le(
                                target,
                                length as nat,
                            )[t] by {
                                if t < b {
                                } else {
                                    assert(residues(binary_vec@)[t] == bit as int);
                                }
                            }
                        }
                        pos = pos / 2;
                        b = b + 1;
                    }
                    proof {
                        assert(residues(binary_vec@) =~= bits_le(target, length as nat));
                    }
                    indices.push(binary_vec);
                },
                None => {
                    proof {
                        assert(!self.index_map@.contains_key(key));
                        assert(!in_table(self.table@, elements@[j as int].as_int()));
                    }
                    return Err(ProtocolError::NotInclusion);
                },
            }
            j = j + 1;
        }
        Ok(indices)
    }

    /// The table polynomial: evaluations are the entries, coefficients
    /// their inverse Moebius transform.
    pub fn polynomial(&self) -> (r: MultilinearPolynomial)
        requires
            self.wf(),
        ensures
            r.wf(),
            r.num_vars == self.num_vars,
            r.evals@ == self.table@,
            residues(r.coeffs@) == mobius_steps(residues(self.table@), self.num_vars as nat),
    {
        MultilinearPolynomial::eval_to_coeff(&self.table, self.num_vars)
    }
}

/// A table rendered as its multilinear polynomial.
pub struct TablePolynomial {
    pub poly: MultilinearPolynomial,
}

} // verus!
