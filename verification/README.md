# gguf_rs

Local inference for models in the GGUF format: reading the file, working out the architecture
from what it holds, tokenizing, running the transformer on the processor or planning it for a
GPU, sampling, and an OpenAI-compatible server around it.

The library under `src/` is verified with Verus. Contracts say what its functions return or
change. What rests on a device or on the clock is stated for whatever they answer: a device's calls
and answers are listed (`Backend::calls`), and contracts speak of that list. The laws of the library
are public proof functions beside the code they speak of.

| Module | What it holds |
|---|---|
| `gguf` | the container: values, the reader, the tensors of a file |
| `dtype`, `quant` | block formats: sizes, decoding, staging of activations, dot products |
| `model` | the architecture a file describes, its weights, the operations of a pass |
| `cpu` | the operations on the processor, a pass made of them, and the processor as a device |
| `gpu` | what is launched, recorded and allocated for CUDA and Vulkan |
| `tokenizer`, `jinja` | vocabularies, encoding and decoding, chat templates |
| `sample` | from logits to a token |
| `runtime` | devices and their calls, caches, what a prompt still has to run, replies |
| `server`, `cli` | requests and answers, the registry, what is printed |

Floating point stays outside. Numbers are their bits, and `Arith` and `Maths` carry the
arithmetic as functions that a caller hands in; contracts speak of those functions.

`app/` is the program: arguments, files, drivers, threads and the network. `tests/` runs the
library on concrete values.
