# fai3_backend

The backend of FAI3, an Internet Computer canister that measures the
fairness of machine-learning models: classifier fairness metrics over
uploaded data points, and, for large language models, a fairness evaluation
on the PISA dataset, a context association (stereotype) test and a
multilingual question-answering evaluation, run as queued jobs.

## Layout

- `src/` — the verified library (Verus). Every function carries a contract
  and is proved against it:
  - `jobs`, `queue` — the job store (ids, statuses, progress, stop requests)
    and the decisions of the job queue;
  - `metrics`, `ratio` — the counts behind the classifier fairness metrics
    (group counts, confusion matrices, parity, odds and opportunity groups,
    accuracy, precision, recall) as exact fractions;
  - `cat` — the context association test: prompts, classification of
    answers, counts, scores and the loop's decisions;
  - `language` — the language evaluation: validation, question selection,
    prompts, grading, counting and rates;
  - `fairness` — the LLM fairness evaluation: datasets, few-shot prompt
    building, expected answers and the reading of replies;
  - `model` — model details history, ownership, privileged maps, dataset
    shape, listing and evaluation lookups;
  - `providers` — inference providers, their endpoints, requests and the
    reading of their answers;
  - `table`, `text`, `utils`, `errors` — CSV tables, text operations, the
    seeded shuffle, response cleaning and error values.
- `tests/` — tests of the library.
- `app/` — the canister around the library: endpoints, stable storage,
  timers, HTTPS outcalls, JSON and Candid, and the floating-point metric
  values.
