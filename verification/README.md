# hyperscalees

Evolution strategies at scale, as a verified library.

Parameters are perturbed with noise that a seed reproduces, every perturbation is
given a fitness, and the parameters move by the noise weighted by the fitnesses.
The library states the rules of this exactly and proves its code against them.
Arithmetic on floating-point numbers and tensors is handed in by the caller as
functions; the contracts say which function is applied to what, and in which order.

## Layout

`src/` is the verified library.

| Modules | What they hold |
| --- | --- |
| `ops`, `split`, `text`, `single` | functions handed in, ranges and slices, text, rounding |
| `prng`, `noise`, `perturb` | generators, seeds, dense, low-rank and sparse noise |
| `noiser`, `update`, `solver`, `fitness` | noisers, gradients, optimizers, fitness normalisation |
| `lora_cache`, `accumulate`, `linearity` | batches of noise, gradients of chunks, and why they add up |
| `kernels`, `einsum`, `einsum_check`, `launch` | kernels, their check against a reference, launch sizes and seeds |
| `common`, `rl`, `recurrent`, `mixers`, `snn`, `snn_attention`, `snn_transformer`, `transformer_forward` | layers and models |
| `tokenizer`, `llm_bandits`, `snn_mnist` | vocabularies, answers, image and label files |
| `train`, `smoke`, `epoch`, `equivalence`, `config` | training plans and runs, the check of accumulation, command lines |

`tests/` runs the library on single-precision numbers and small integers.

`app/` is ordinary Rust around the library: tensors, files, and the training
programs.

## What is not proved

What regular expressions, gzip streams and UTF-8 decoding do is done by other
crates and the standard library. Each function that calls them says what it takes
for granted.
Floating-point arithmetic is the caller's: a contract holds for whatever the
functions that are handed in compute, provided that they give one result for each
argument, and the same for lists of the same numbers.
