//! What the node providers compute: the Alchemy request's URL and block
//! parameter, and the selection of a block's transactions.
use vstd::prelude::*;
use crate::text::{decimal_text, hex_min_text, push_char, push_decimal, push_hex};

verus! {

/// The block number as the JSON-RPC parameter `format!("0x{:x}", n)`.
pub fn block_number_param(n: u64) -> (r: String)
    ensures
        r@ == seq!['0', 'x'] + hex_min_text(n as nat),
{
    let mut out = String::new();
    push_char(&mut out, '0');
    push_char(&mut out, 'x');
    push_hex(&mut out, n);
    assert(out@ =~= seq!['0', 'x'] + hex_min_text(n as nat));
    out
}

/// The loopback socket address of a discovery port: `format!("127.0.0.1:{port}")`.
pub fn loopback_address(port: u16) -> (r: String)
    ensures
        r@ == "127.0.0.1:"@ + decimal_text(port as nat),
{
    let mut out = "127.0.0.1:".to_owned();
    push_decimal(&mut out, port as u64);
    out
}

/// The Alchemy endpoint under the base URL: `format!("{}/v2/your-api-key", base)`.
pub fn alchemy_endpoint(base: &str) -> (r: String)
    ensures
        r@ == base@ + "/v2/your-api-key"@,
{
    let mut out = base.to_owned();
    out.append("/v2/your-api-key");
    out
}

/// The positions, in order, of the transactions whose block number is `block`.
pub open spec fn positions_in_block(numbers: Seq<u64>, block: u64) -> Seq<int>
    decreases numbers.len(),
{
    if numbers.len() == 0 {
        Seq::empty()
    } else if numbers.last() == block {
        positions_in_block(numbers.drop_last(), block).push(numbers.len() - 1)
    } else {
        positions_in_block(numbers.drop_last(), block)
    }
}

/// The positions picked for a block are exactly the positions of the
/// transactions of that block: each is in range and of the block, every
/// transaction of the block is picked, and they rise strictly (so none is
/// picked twice).
pub proof fn law_positions_in_block(numbers: Seq<u64>, block: u64)
    ensures
        forall|j: int|
            0 <= j < positions_in_block(numbers, block).len() ==> {
                let p = #[trigger] positions_in_block(numbers, block)[j];
                0 <= p < numbers.len() && numbers[p] == block
            },
        forall|i: int|
            0 <= i < numbers.len() && #[trigger] numbers[i] == block ==> exists|j: int|
                0 <= j < positions_in_block(numbers, block).len() && #[trigger] positions_in_block(
                    numbers,
                    block,
                )[j] == i,
        forall|j: int, k: int|
            0 <= j < k < positions_in_block(numbers, block).len() ==> positions_in_block(
                numbers,
                block,
            )[j] < positions_in_block(numbers, block)[k],
    decreases numbers.len(),
{
    if numbers.len() > 0 {
        let init = numbers.drop_last();
        law_positions_in_block(init, block);
        let p0 = positions_in_block(init, block);
        let p = positions_in_block(numbers, block);
        assert forall|j: int| 0 <= j < p0.len() implies p0[j] < init.len() && numbers[p0[j]]
            == block by {
            assert(init[p0[j]] == numbers[p0[j]]);
        }
        assert forall|i: int|
            0 <= i < numbers.len() && #[trigger] numbers[i] == block implies exists|j: int|
                0 <= j < p.len() && #[trigger] p[j] == i by {
            if i < numbers.len() - 1 {
                assert(init[i] == numbers[i]);
                let j = choose|j: int| 0 <= j < p0.len() && #[trigger] p0[j] == i;
                assert(p[j] == i);
            } else {
                assert(p[p.len() - 1] == i);
            }
        }
    }
}

/// Picks out, in order, the positions of the transactions that belong to
/// block `block`, given each transaction's block number.
pub fn transactions_in_block(numbers: &[u64], block: u64) -> (r: Vec<usize>)
    ensures
        r@.map_values(|i: usize| i as int) == positions_in_block(numbers@, block),
{
    let mut r: Vec<usize> = Vec::new();
    let mut i: usize = 0;
    while i < numbers.len()
        invariant
            i <= numbers@.len(),
            r@.map_values(|i: usize| i as int) == positions_in_block(numbers@.take(i as int), block),
        decreases numbers@.len() - i,
    {
        proof {
            let t = numbers@.take(i + 1);
            assert(t.drop_last() =~= numbers@.take(i as int));
            assert(t.last() == numbers@[i as int]);
        }
        if numbers[i] == block {
            r.push(i);
        }
        proof {
            assert(r@.map_values(|i: usize| i as int) =~= positions_in_block(numbers@.take(i + 1), block));
        }
        i = i + 1;
    }
    assert(numbers@.take(numbers@.len() as int) =~= numbers@);
    r
}

} // verus!
