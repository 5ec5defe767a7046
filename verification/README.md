# awslog_core

Reads AWS log files offline, brings every record onto one set of columns, runs
detection rules over them and lists what matched.

The library under `src/` is written in Verus: each function states what it
returns, and the verifier proves it. CloudTrail, load balancer, WAF, API Gateway
and nginx access logs are understood.

## Layout

| Module | What it holds |
| --- | --- |
| `text`, `split`, `number`, `stamp`, `textmap` | text, numbers, times and a sorted map |
| `json`, `gzip` | JSON values and compressed input |
| `detect`, `scan`, `paths`, `report` | which files are logs, and how they are named |
| `mapping`, `ndjson`, `parse` | records into normalized events |
| `rule` | the rule language: lexer, parser, evaluation, explanation, rule sets |
| `store` | the queries, rows and passes over a case database |
| `preview`, `payload`, `results`, `logging` | previews, payload keys, result lists, log hygiene |
| `shell` | the decisions behind each command of the program |

`app/` is the program around the library: files, threads, the database and the
command line. `tests/` runs the library from outside.

## Laws

Properties that span several functions are public proof functions beside the
functions they speak of. Among them: a rule finds in an event what the parser
wrote there (`parse::found`), a rule cut out of a file parses to the same rule
(`rule::cut`), filters made from a rule lose none of its matches
(`store::candidate`, `store::pass`), and following the cursor through a list
shows every row once (`store::paging`, `store::summary`, `store::window`).

## What is taken on trust

Calls into `serde_json`, `regex`, `time`, `flate2` and a few functions of the
standard library stand behind small functions whose doc comments say what is
claimed of them.
