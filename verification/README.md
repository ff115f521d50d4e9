# Dynamo

Household electricity, measured per circuit by three panel monitors, read out of
their maker's cloud on a schedule and kept in Postgres. The cloud keeps a week of
minutes; kept here, a week becomes a permanent record.

## Layout

- `src/` is the library: what to fetch next, what a response means, how a token
  is renewed, how a question is read and answered. It opens no socket and no
  file. Every function states what it returns, and every statement is proved by
  Verus. What follows from several of them together stands beside them as
  functions named `law_...`.
- `app/` is the program around it: arguments, environment, clock, HTTP, Postgres
  and floating point.
- `tests/` runs the library on concrete values.

| Module | What it is about |
| --- | --- |
| `scale` | the resolutions, how much of each a request may ask for and how long it is kept |
| `plan` | the windows to fetch, from what is held of each series |
| `emporia` | URLs, the device tree flattened into channels, responses turned into readings |
| `cognito` | the sign-in: its body, what its reply means, when the credential was signed in |
| `http` | which token a request carries, what a reply means, the pace of requests |
| `agent` | the words of a question, read into a request |
| `answer` | what is asked of the store for a request, and the JSON of the reply |
| `config` | what the environment says |
| `store` | what is written to Postgres, and what its rows mean |
| `service` | the command line, the state of health, the course of a pass |
| `text`, `time`, `json`, `sort` | what the others are written in |

## What is taken on trust

How a moment is written (`chrono`), the quoting and reading of JSON
(`serde_json`) and two functions of the standard library are called through
small functions whose contracts say what is believed of them. They stand in
`time`, `cognito` and `text`.

Fractional numbers are never computed with in `src/`: they pass through as the
bits of a `double`.

## Running it

`dynamo` collects for good, `dynamo --once` makes one pass, `dynamo --health`
says whether the service is well, and `dynamo agent describe` says what can be
asked. Everything it needs comes from the environment; `DYNAMO_REFRESH_TOKEN`
and `DYNAMO_DB_PASSWORD` have no defaults.
