# rust_api_ssr

A small web service for user accounts and chat rooms: server-rendered
pages, a JSON API, session sign-in with a login throttle, private rooms
with invitations, file sharing over a WebSocket, and the key exchange for
end-to-end encrypted rooms.

## Layout

- `src/` is the library, written in Verus. Every rule the service applies
  is a verified function with a `requires`/`ensures` contract:
  - `text`: trimming, splitting, decimal writing and parsing;
  - `auth`: cookies, session and CSRF tokens, the sign-in decision;
  - `rate_limit`: the login throttle and its laws across calls;
  - `users`: password hashing and checking, nicknames, new and updated
    user records;
  - `views`: the user form and its validation;
  - `chat`: room paths and views, unread counts, invitees, participant
    parsing, the invitation, socket-input and file decisions;
  - `crypto`: device keys and room-key access;
  - `metrics`, `config`, `context`, `error`, `models`.
  Calls into argon2, password-hash, uuid and base64 sit behind small
  trusted wrappers whose contracts state what those crates document.
- `tests/` exercises the library on concrete values.
- `app/` is the service itself: axum routes, SQLite through sqlx, moka
  caches, the socket loop and the HTML pages. It holds the I/O and hands
  plain values to the library.
