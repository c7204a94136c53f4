# fpanel

FPanel is a web hosting control panel: accounts and packages, domains and
their DNS zones, mailboxes, databases, certificates, scheduled jobs, backups,
runtime applications, one-click installers and per-domain security settings,
served as an HTTP API to an administrator and to hosting clients.

## Layout

- `src/` is the verified library (Verus). It holds the panel's rules and
  formats: request checks and their error answers, the login rate limiter,
  session and role checks, TOTP, zone files and TXT chunking, the Valkey wire
  protocol, cron schedules and crontabs, path resolution under a document
  root, certificate admission, mail log parsing, the descriptors written for
  the web, mail and SSH services, and more. Every public function states its
  result in its contract; the laws that span several functions are public
  proof functions named `law_*`. Calls into outside crates (bcrypt, openssl,
  regex, chrono, uuid, percent-encoding, serde_json) stand behind small
  trusted wrappers whose contracts are documented where they are declared.
- `tests/` runs the library on concrete values.
- `app/` is the server around it: the axum routes, the SQLite and MariaDB
  queries, the files and processes the panel manages, and session tokens.
  It hands plain values to the library and acts on what comes back.
