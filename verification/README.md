# verse

The V.E.R.S.E model-validation tools: a command line for the validation
server, zero-knowledge guests and hosts that evaluate regression models and
decision trees inside the RISC Zero zkVM, and a few model utilities.

## Layout

- `src/` is the library, verified with Verus:
  - `fixed_q16`, `fixed_decimal`: fixed-point model arithmetic (binary with 16
    fractional bits, and decimal with six digits), the model dispatch of the
    inference guest and the generator of the benchmark dataset;
  - `float_bits`, `argmax`: IEEE comparisons on bit patterns and the index of
    a row's largest element;
  - `flat_tree`, `id_tree`, `map_tree`: the three decision-tree formats and
    their evaluation, with proofs that a walk that ends does so within as
    many steps as the tree has nodes;
  - `text`, `csv_dataset`, `json`, `reports`: trimming and splitting, the CSV
    dataset format, JSON values and what the command line reports of the
    server's answers;
  - `session`, `batches`: the saved login and settings, and the split of a
    dataset into batch files.
- `tests/` exercises the library.
- `app/` holds the programs themselves (one executable whose first argument
  names the program): argument handling, files, network, the zkVM prover and
  ONNX Runtime, and the floating-point model code.
