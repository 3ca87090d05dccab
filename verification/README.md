# sniffooor

A Starknet sniffer that watches the pending block for JediSwap
add-liquidity calls and prints the tokens they add.

- `src/` is the verified library (Verus): field elements as 32 big-endian
  bytes with their hex and short-string readings (`felt`), the block and
  transaction model and the `Chain` trait (`sniffooor::chain`), the Starknet
  chain (`sniffooor::chain::strknet`), the detection of add-liquidity calls
  and the decisions of the polling loop (`sniffooor`), and the decisions of
  the pending-block monitor (`monitor`).
- `app/` is the program around it: RPC calls, conversions from `starknet`'s
  types, printing, sleeping and spawning.
- `tests/` runs the library on concrete values.
