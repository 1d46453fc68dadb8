# m_calc

An arithmetic drill for primary-school pupils, run in a terminal as
`m_calc <username>`. Exercises are drawn at random (addition and subtraction,
with a blank in the result or in an operand, or three operands), answers are
positive integers, a session is graded and its mistakes can be corrected, and
each user's profile keeps the fastest full-score test time of every
difficulty and number range, and a history of sessions.

Layout:

- `src/` is the library, with its contracts and proofs:
  - `exercise.rs`: the exercise kinds, how drawn operands become an exercise,
    drawing an exercise and a session's list, and the laws of exercises (the
    answer fills the blank, it is positive, operands are only reordered);
  - `random.rs`: the calls into `rand`;
  - `session.rs`: grading a session and the correction pass;
  - `user.rs`: profiles, records and history, and their tables;
  - `menu.rs`: the meaning of each menu choice;
  - `input.rs`: trimming and reading numbers as `str::trim` and `str::parse` do;
  - `text.rs`: decimal text of integers;
  - `util/`, `session_log.rs`: exercises kept as numbers and their text log.
- `app/` is the terminal program: prompts (`dialoguer`), progress bar
  (`indicatif`), tables (`prettytable`), colours (`console`), the clock
  (`chrono`) and the JSON profile file (`serde`).
- `tests/` runs the library on concrete values.
