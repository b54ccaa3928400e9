//! The textual side of originating and wiring the ctez and bridge contracts:
//! the Michelson storage and argument literals are built and verified here;
//! invoking an origination client with them is the caller's part, out of
//! this library's scope.

use vstd::prelude::*;

use crate::escape::hex_digit;
use crate::escape::hex_digit_str;

verus! {

/// The decimal digits of `n`, most significant first.
pub open spec fn dec_rep(n: nat) -> Seq<char>
    decreases n,
{
    if n < 10 {
        seq![hex_digit(n as int)]
    } else {
        dec_rep(n / 10) + seq![hex_digit((n % 10) as int)]
    }
}

/// Writes `n` in decimal.
pub fn u64_to_dec(n: u64) -> (r: String)
    ensures
        r@ == dec_rep(n as nat),
    decreases n,
{
    if n < 10 {
        let d = hex_digit_str(n as u8);
        String::from_str(d)
    } else {
        let mut s = u64_to_dec(n / 10);
        let d = hex_digit_str((n % 10) as u8);
        s.append(d);
        s
    }
}

/// One bootstrap balance of the ctez ledger: an account in its textual form
/// and its amount in the smallest unit.
#[derive(Debug, Clone, PartialEq, Eq)]
pub struct BootstrapAccount {
    pub address: String,
    pub amount: u64,
}

/// The Michelson map entry of one bootstrap account.
pub open spec fn michelson_elt_spec(addr: Seq<char>, amount: nat) -> Seq<char> {
    "Elt \""@ + addr + "\" "@ + dec_rep(amount)
}

impl BootstrapAccount {
    /// Renders the account as one `Elt` of the initial ledger map literal.
    pub fn as_michelson_elt(&self) -> (r: String)
        ensures
            r@ == michelson_elt_spec(self.address@, self.amount as nat),
    {
        let mut out = String::new();
        out.append("Elt \"");
        out.append(self.address.as_str());
        out.append("\" ");
        let d = u64_to_dec(self.amount);
        out.append(d.as_str());
        proof {
            assert(out@ =~= michelson_elt_spec(self.address@, self.amount as nat));
        }
        out
    }
}

/// The `Elt` entries of the accounts, space separated, in their given order.
pub open spec fn elts_joined(accts: Seq<BootstrapAccount>) -> Seq<char>
    decreases accts.len(),
{
    if accts.len() == 0 {
        Seq::empty()
    } else if accts.len() == 1 {
        michelson_elt_spec(accts[0].address@, accts[0].amount as nat)
    } else {
        michelson_elt_spec(accts[0].address@, accts[0].amount as nat) + seq![' '] + elts_joined(
            accts.skip(1),
        )
    }
}

/// Joining one more account appends a separator, unless it is the first.
proof fn lemma_elts_joined_push(accts: Seq<BootstrapAccount>, x: BootstrapAccount)
    ensures
        elts_joined(accts.push(x)) == if accts.len() == 0 {
            michelson_elt_spec(x.address@, x.amount as nat)
        } else {
            elts_joined(accts) + seq![' '] + michelson_elt_spec(x.address@, x.amount as nat)
        },
    decreases accts.len(),
{
    let p = accts.push(x);
    if accts.len() == 0 {
        assert(p.len() == 1);
        assert(p[0] == x);
    } else if accts.len() == 1 {
        assert(p.len() == 2);
        assert(p[0] == accts[0]);
        assert(p.skip(1) =~= seq![x]);
        assert(elts_joined(seq![x]) == michelson_elt_spec(x.address@, x.amount as nat));
    } else {
        lemma_elts_joined_push(accts.skip(1), x);
        assert(p.skip(1) =~= accts.skip(1).push(x));
        assert(p[0] == accts[0]);
        assert(elts_joined(p) == michelson_elt_spec(p[0].address@, p[0].amount as nat) + seq![' ']
            + elts_joined(accts.skip(1).push(x)));
        assert(michelson_elt_spec(accts[0].address@, accts[0].amount as nat) + seq![' '] + (
        elts_joined(accts.skip(1)) + seq![' '] + michelson_elt_spec(x.address@, x.amount as nat))
            =~= (michelson_elt_spec(accts[0].address@, accts[0].amount as nat) + seq![' ']
            + elts_joined(accts.skip(1))) + seq![' '] + michelson_elt_spec(
            x.address@,
            x.amount as nat,
        ));
    }
}

/// The initial storage of the ctez contract: the operator and the bootstrap
/// ledger as a Michelson pair literal.
pub open spec fn ctez_storage_spec(operator: Seq<char>, accts: Seq<BootstrapAccount>) -> Seq<char> {
    "(Pair \""@ + operator + "\" { "@ + elts_joined(accts) + " } )"@
}

/// Builds the initial storage literal with which the ctez contract is
/// originated for `operator_address` with the given bootstrap balances.
/// Handing it to the origination client is the caller's part.
pub fn ctez_init_storage(operator_address: &str, bootstrap_accounts: &Vec<BootstrapAccount>) -> (r:
    String)
    ensures
        r@ == ctez_storage_spec(operator_address@, bootstrap_accounts@),
{
    let mut elts = String::new();
    let n = bootstrap_accounts.len();
    let mut i: usize = 0;
    while i < n
        invariant
            i <= n,
            n == bootstrap_accounts@.len(),
            elts@ == elts_joined(bootstrap_accounts@.take(i as int)),
        decreases n - i,
    {
        if i > 0 {
            elts.append(" ");
            proof {
                reveal_strlit(" ");
                assert(" "@ =~= seq![' ']);
            }
        }
        let e = bootstrap_accounts[i].as_michelson_elt();
        elts.append(e.as_str());
        proof {
            let pre = bootstrap_accounts@.take(i as int);
            assert(bootstrap_accounts@.take(i as int + 1) =~= pre.push(bootstrap_accounts@[
                i as int]));
            lemma_elts_joined_push(pre, bootstrap_accounts@[i as int]);
        }
        i += 1;
    }
    proof {
        assert(bootstrap_accounts@.take(n as int) =~= bootstrap_accounts@);
    }
    let mut out = String::new();
    out.append("(Pair \"");
    out.append(operator_address);
    out.append("\" { ");
    out.append(elts.as_str());
    out.append(" } )");
    proof {
        assert(out@ =~= ctez_storage_spec(operator_address@, bootstrap_accounts@));
    }
    out
}

/// The deployed bridge contract, held as the address it was originated at.
#[derive(Debug, Clone, PartialEq, Eq)]
pub struct BridgeContract(pub String);

/// The initial storage of the bridge contract: the ctez contract address and
/// no rollup yet.
pub open spec fn bridge_storage_spec(ctez: Seq<char>) -> Seq<char> {
    "(Pair \""@ + ctez + "\" None)"@
}

/// Builds the initial storage literal with which the bridge contract is
/// originated against the ctez contract at `ctez_address`.
pub fn bridge_init_storage(ctez_address: &str) -> (r: String)
    ensures
        r@ == bridge_storage_spec(ctez_address@),
{
    let mut out = String::new();
    out.append("(Pair \"");
    out.append(ctez_address);
    out.append("\" None)");
    proof {
        assert(out@ =~= bridge_storage_spec(ctez_address@));
    }
    out
}

/// The Michelson argument with which the bridge's `set_rollup` entrypoint is
/// called: the rollup address as a quoted string literal.
pub fn set_rollup_arg(rollup_address: &str) -> (r: String)
    ensures
        r@ == seq!['"'] + rollup_address@ + seq!['"'],
{
    let mut out = String::new();
    out.append("\"");
    out.append(rollup_address);
    out.append("\"");
    proof {
        reveal_strlit("\"");
        assert("\""@ =~= seq!['"']);
        assert(out@ =~= seq!['"'] + rollup_address@ + seq!['"']);
    }
    out
}

/// Declares the contract-hash type of the tezos crypto library, so that a
/// freshly originated contract's hash can be turned into a bridge handle.
#[verifier::external_type_specification]
#[verifier::external_body]
pub struct ExContractKt1Hash(tezos_crypto_rs::hash::ContractKt1Hash);

/// The base58check rendering of a contract hash, as the tezos crypto
/// library computes it: a function of the hash alone.
pub uninterp spec fn kt1_b58_of(hash: tezos_crypto_rs::hash::ContractKt1Hash) -> Seq<char>;

/// Relies on HashType::hash_to_b58check: the base58check rendering of the
/// hash's bytes, named `kt1_b58_of`, or nothing when the bytes are not of
/// the contract-hash size (a hash of the wrong size can reach safe code
/// through the crate's binary deserializer, and the rendering it panics on
/// is refused here instead).
#[verifier::external_body]
fn kt1_to_base58(hash: &tezos_crypto_rs::hash::ContractKt1Hash) -> (r: Option<String>)
    ensures
        r matches Some(s) ==> s@ == kt1_b58_of(*hash),
{
    tezos_crypto_rs::hash::HashType::ContractKt1Hash.hash_to_b58check(hash.as_ref()).ok()
}

impl BridgeContract {
    /// The textual address of the deployed contract.
    pub fn to_string(&self) -> (r: String)
        ensures
            r@ == self.0@,
    {
        self.0.clone()
    }

    /// Wraps a contract hash, rendered in base58check, as the bridge handle,
    /// and nothing when the hash's bytes are not of the contract-hash size.
    pub fn from_kt1_hash(hash: &tezos_crypto_rs::hash::ContractKt1Hash) -> (r: Option<
        BridgeContract,
    >)
        ensures
            r matches Some(b) ==> b.0@ == kt1_b58_of(*hash),
    {
        match kt1_to_base58(hash) {
            Some(address) => Some(BridgeContract(address)),
            None => None,
        }
    }
}

} // verus!
